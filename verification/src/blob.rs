//! The description a trainer gives of itself, and how two of them differ.
//!
//! A run records the description of its trainer. A run that is taken up again
//! compares it with the description of the trainer it is given, so that a
//! changed knob is named before any replay goes wrong on it.

use vstd::prelude::*;

use crate::json::{
    ascending, find_key, has_key, json_parts, json_text, key_is_found, key_slot, object_says,
    ordered, pairs, parts, plain, plain_is_ordered, slot_has_key, value_of, Json, JsonView, Member,
};
use crate::text::{
    join, joined_text, text_below, text_order_is_total, text_order_is_transitive, texts,
};

verus! {

// ── Differences ──────────────────────────────────────────────────────────

/// A key behind the path of the object that holds it.
pub open spec fn key_path(path: Seq<char>, key: Seq<char>) -> Seq<char> {
    if path.len() == 0 {
        key
    } else {
        path + "."@ + key
    }
}

/// Both have the key, with these values.
pub open spec fn changed_line(path: Seq<char>, a: JsonView, b: JsonView) -> Seq<char> {
    "\""@ + path + "\": run had "@ + json_text(a) + ", incoming has "@ + json_text(b)
}

/// Only the run has the key.
pub open spec fn dropped_line(path: Seq<char>, a: JsonView) -> Seq<char> {
    "\""@ + path + "\": run had "@ + json_text(a) + ", incoming doesn't declare it"@
}

/// Only the incoming trainer has the key.
pub open spec fn added_line(path: Seq<char>, b: JsonView) -> Seq<char> {
    "\""@ + path + "\": incoming declares "@ + json_text(b) + ", run didn't record it"@
}

/// The differences between two values. Objects are compared key by key, every
/// other pair of values as a whole.
pub open spec fn differences(path: Seq<char>, a: JsonView, b: JsonView) -> Seq<Seq<char>>
    decreases a, parts(a) + 1,
{
    match (a, b) {
        (JsonView::Object(am), JsonView::Object(bm)) => member_differences(path, a, bm, parts(a))
            + added_members(path, am, bm),
        _ => if a == b {
            Seq::empty()
        } else {
            seq![changed_line(path, a, b)]
        },
    }
}

/// The differences in the first `n` members of the object `a`.
pub open spec fn member_differences(
    path: Seq<char>,
    a: JsonView,
    bm: Seq<(Seq<char>, JsonView)>,
    n: nat,
) -> Seq<Seq<char>>
    decreases a, n,
{
    match a {
        JsonView::Object(am) => if n == 0 || n > am.len() {
            Seq::empty()
        } else {
            let m = am[n - 1];
            let here = key_path(path, m.0);
            member_differences(path, a, bm, (n - 1) as nat) + (if has_key(bm, m.0) {
                differences(here, m.1, value_of(bm, m.0))
            } else {
                seq![dropped_line(here, m.1)]
            })
        },
        _ => Seq::empty(),
    }
}

/// The members of `bm` that `am` lacks.
pub open spec fn added_members(
    path: Seq<char>,
    am: Seq<(Seq<char>, JsonView)>,
    bm: Seq<(Seq<char>, JsonView)>,
) -> Seq<Seq<char>>
    decreases bm.len(),
{
    if bm.len() == 0 {
        Seq::empty()
    } else {
        let m = bm.last();
        let rest = added_members(path, am, bm.drop_last());
        if has_key(am, m.0) {
            rest
        } else {
            rest.push(added_line(key_path(path, m.0), m.1))
        }
    }
}

fn extend_path(path: &str, key: &str) -> (r: String)
    ensures
        r@ == key_path(path@, key@),
{
    if path.unicode_len() == 0 {
        String::from_str(key)
    } else {
        let mut out = String::from_str(path);
        out.append(".");
        out.append(key);
        out
    }
}

fn line(path: &str, verb: &str, value: &Json, tail: &str) -> (r: String)
    ensures
        r@ == "\""@ + path@ + verb@ + json_text(value@) + tail@,
{
    let mut out = String::from_str("\"");
    out.append(path);
    out.append(verb);
    out.append(value.text().as_str());
    out.append(tail);
    out
}

/// Collects the differences between two values, recursing into objects.
pub fn diff_json(path: &str, a: &Json, b: &Json, out: &mut Vec<String>)
    ensures
        texts(final(out)@) == texts(old(out)@) + differences(path@, a@, b@),
    decreases *a, json_parts(*a) + 1,
{
    match (a, b) {
        (Json::Object(am), Json::Object(bm)) => {
            proof {
                object_says(*am);
                object_says(*bm);
            }
            let n: usize = am.len();
            diff_members(path, a, bm, n, out);
            diff_added(path, am, bm, out);
            assert(texts(out@) =~= texts(old(out)@) + differences(path@, a@, b@));
        },
        _ => {
            if !a.same(b) {
                let mut l = line(path, "\": run had ", a, ", incoming has ");
                l.append(b.text().as_str());
                out.push(l);
            }
            assert(texts(out@) =~= texts(old(out)@) + differences(path@, a@, b@));
        },
    }
}

fn diff_members(path: &str, a: &Json, bm: &Vec<Member>, n: usize, out: &mut Vec<String>)
    requires
        a is Object,
        n <= json_parts(*a),
    ensures
        texts(final(out)@) == texts(old(out)@) + member_differences(
            path@,
            a@,
            pairs(bm@),
            n as nat,
        ),
    decreases *a, n as nat,
{
    if n == 0 {
        assert(texts(out@) =~= texts(old(out)@) + member_differences(
            path@,
            a@,
            pairs(bm@),
            n as nat,
        ));
        return;
    }
    diff_members(path, a, bm, n - 1, out);
    let ghost front = texts(out@);
    if let Json::Object(am) = a {
        proof {
            object_says(*am);
        }
        let key = extend_path(path, am[n - 1].key.as_str());
        match find_key(bm, am[n - 1].key.as_str()) {
            Some(i) => {
                diff_json(key.as_str(), &am[n - 1].value, &bm[i].value, out);
            },
            None => {
                out.push(
                    line(
                        key.as_str(),
                        "\": run had ",
                        &am[n - 1].value,
                        ", incoming doesn't declare it",
                    ),
                );
                assert(texts(out@) =~= front + seq![dropped_line(key@, am@[n - 1].value@)]);
            },
        }
    }
    assert(texts(out@) =~= texts(old(out)@) + member_differences(
        path@,
        a@,
        pairs(bm@),
        n as nat,
    ));
}

fn diff_added(path: &str, am: &Vec<Member>, bm: &Vec<Member>, out: &mut Vec<String>)
    ensures
        texts(final(out)@) == texts(old(out)@) + added_members(path@, pairs(am@), pairs(bm@)),
{
    let mut i: usize = 0;
    let ghost front = texts(out@);
    let ghost all = pairs(bm@);
    assert(all.take(0) =~= Seq::empty());
    assert(front =~= front + added_members(path@, pairs(am@), all.take(0)));
    while i < bm.len()
        invariant
            i <= bm@.len(),
            all == pairs(bm@),
            texts(out@) == front + added_members(path@, pairs(am@), all.take(i as int)),
        decreases bm@.len() - i,
    {
        assert(all.take(i + 1).drop_last() =~= all.take(i as int));
        if find_key(am, bm[i].key.as_str()).is_none() {
            let key = extend_path(path, bm[i].key.as_str());
            let ghost before = texts(out@);
            out.push(
                line(
                    key.as_str(),
                    "\": incoming declares ",
                    &bm[i].value,
                    ", run didn't record it",
                ),
            );
            assert(texts(out@) =~= before.push(added_line(key@, bm@[i as int].value@)));
        }
        assert(texts(out@) =~= front + added_members(path@, pairs(am@), all.take(i + 1)));
        i = i + 1;
    }
    assert(all.take(bm@.len() as int) =~= all);
}

/// What a mismatch is answered with.
pub open spec fn mismatch_text(caller: Seq<char>, diffs: Seq<Seq<char>>) -> Seq<char> {
    caller + ": trainer blob mismatch (consts changed since the run started?) — "@ + joined_text(
        diffs,
        "; "@,
    )
}

/// What a description says, if there is one.
pub open spec fn described(j: Option<Json>) -> Option<JsonView> {
    match j {
        Some(x) => Some(x@),
        None => None,
    }
}

/// The differences that count: none unless both sides describe themselves.
pub open spec fn blob_differences(recorded: Option<JsonView>, incoming: Option<JsonView>) -> Seq<
    Seq<char>,
> {
    match (recorded, incoming) {
        (Some(a), Some(b)) => differences(""@, a, b),
        _ => Seq::empty(),
    }
}

/// Compares the recorded description with the incoming one. The check is
/// silent if either is missing; otherwise the error names every difference.
pub fn assert_trainer_blob_matches(
    recorded: &Option<Json>,
    incoming: &Option<Json>,
    caller: &str,
) -> (r: Result<(), String>)
    ensures
        ({
            let diffs = blob_differences(described(*recorded), described(*incoming));
            match r {
                Ok(_) => diffs.len() == 0,
                Err(e) => diffs.len() > 0 && e@ == mismatch_text(caller@, diffs),
            }
        }),
{
    match (recorded, incoming) {
        (Some(a), Some(b)) => {
            let mut diffs: Vec<String> = Vec::new();
            assert(texts(diffs@) =~= Seq::empty());
            diff_json("", a, b, &mut diffs);
            assert(texts(diffs@) =~= differences(""@, a@, b@));
            assert(texts(diffs@).len() == diffs@.len());
            if diffs.len() == 0 {
                return Ok(());
            }
            let mut out = String::from_str(caller);
            out.append(": trainer blob mismatch (consts changed since the run started?) — ");
            out.append(join(&diffs, "; ").as_str());
            Err(out)
        },
        _ => Ok(()),
    }
}

// ── Laws ─────────────────────────────────────────────────────────────────

/// No object in the value has a key twice.
pub open spec fn keys_are_unique(v: JsonView) -> bool
    decreases v,
{
    match v {
        JsonView::Object(members) => {
            &&& forall|i: int, k: int|
                0 <= i < k < members.len() ==> (#[trigger] members[i]).0 != (
                #[trigger] members[k]).0
            &&& forall|i: int|
                0 <= i < members.len() ==> keys_are_unique((#[trigger] members[i]).1)
        },
        _ => true,
    }
}

/// Two values agree: objects have the same keys with values that agree, other
/// values are the same.
pub open spec fn agree(a: JsonView, b: JsonView) -> bool
    decreases a,
{
    match (a, b) {
        (JsonView::Object(am), JsonView::Object(bm)) => {
            &&& forall|i: int|
                0 <= i < am.len() ==> {
                    &&& has_key(bm, (#[trigger] am[i]).0)
                    &&& agree(am[i].1, value_of(bm, am[i].0))
                }
            &&& forall|i: int| 0 <= i < bm.len() ==> has_key(am, (#[trigger] bm[i]).0)
        },
        _ => a == b,
    }
}

proof fn added_is_empty(
    path: Seq<char>,
    am: Seq<(Seq<char>, JsonView)>,
    bm: Seq<(Seq<char>, JsonView)>,
)
    ensures
        added_members(path, am, bm).len() == 0 <==> (forall|i: int|
            0 <= i < bm.len() ==> has_key(am, (#[trigger] bm[i]).0)),
    decreases bm.len(),
{
    if bm.len() > 0 {
        let rest = bm.drop_last();
        added_is_empty(path, am, rest);
        if forall|i: int| 0 <= i < rest.len() ==> has_key(am, (#[trigger] rest[i]).0) {
            assert forall|i: int| 0 <= i < bm.len() && has_key(am, bm.last().0) implies has_key(
                am,
                (#[trigger] bm[i]).0,
            ) by {
                if i < rest.len() {
                    assert(rest[i] == bm[i]);
                }
            }
            assert(bm[bm.len() - 1] == bm.last());
        } else {
            let i = choose|i: int| 0 <= i < rest.len() && !has_key(am, (#[trigger] rest[i]).0);
            assert(bm[i] == rest[i]);
        }
    }
}

/// The check passes exactly the descriptions that agree.
pub proof fn silent_means_agreement(path: Seq<char>, a: JsonView, b: JsonView)
    ensures
        differences(path, a, b).len() == 0 <==> agree(a, b),
    decreases a, parts(a) + 1,
{
    match (a, b) {
        (JsonView::Object(am), JsonView::Object(bm)) => {
            members_are_silent(path, a, bm, parts(a));
            added_is_empty(path, am, bm);
        },
        _ => {},
    }
}

proof fn members_are_silent(
    path: Seq<char>,
    a: JsonView,
    bm: Seq<(Seq<char>, JsonView)>,
    n: nat,
)
    requires
        a is Object,
        n <= parts(a),
    ensures
        member_differences(path, a, bm, n).len() == 0 <==> (forall|i: int|
            0 <= i < n ==> {
                &&& has_key(bm, (#[trigger] a->Object_0[i]).0)
                &&& agree(a->Object_0[i].1, value_of(bm, a->Object_0[i].0))
            }),
    decreases a, n,
{
    if n > 0 {
        members_are_silent(path, a, bm, (n - 1) as nat);
        if let JsonView::Object(am) = a {
            let m = am[n - 1];
            silent_means_agreement(key_path(path, m.0), m.1, value_of(bm, m.0));
        }
    }
}

proof fn same_keys_same_places(
    am: Seq<(Seq<char>, JsonView)>,
    bm: Seq<(Seq<char>, JsonView)>,
    i: int,
)
    requires
        ascending(am),
        ascending(bm),
        forall|k: int| 0 <= k < am.len() ==> has_key(bm, (#[trigger] am[k]).0),
        forall|k: int| 0 <= k < bm.len() ==> has_key(am, (#[trigger] bm[k]).0),
        0 <= i < am.len(),
    ensures
        i < bm.len(),
        am[i].0 == bm[i].0,
    decreases i,
{
    assert forall|j: int| 0 <= j < i implies j < bm.len() && (#[trigger] am[j]).0 == bm[j].0 by {
        same_keys_same_places(am, bm, j);
    }
    let k = key_slot(bm, am[i].0, bm.len());
    slot_has_key(bm, am[i].0, bm.len());
    if k < i {
        assert(am[k].0 == bm[k].0);
        text_order_is_total(am[k].0, am[i].0);
    } else if i < k {
        let l = key_slot(am, bm[i].0, am.len());
        slot_has_key(am, bm[i].0, am.len());
        assert(has_key(am, bm[i].0));
        if l < i {
            assert(am[l].0 == bm[l].0);
            text_order_is_total(bm[l].0, bm[i].0);
        } else {
            assert(text_below(bm[i].0, bm[k].0));
            if i < l {
                assert(text_below(am[i].0, am[l].0));
                text_order_is_transitive(bm[i].0, am[i].0, am[l].0);
            }
            text_order_is_total(bm[i].0, bm[i].0);
        }
    }
}

/// Descriptions whose keys stand in order agree exactly if they are the same.
/// Those that are plain have them in order.
pub proof fn agreement_is_equality(a: JsonView, b: JsonView)
    requires
        plain(a) || ordered(a),
        plain(b) || ordered(b),
    ensures
        agree(a, b) <==> a == b,
    decreases a,
{
    if plain(a) {
        plain_is_ordered(a);
    }
    if plain(b) {
        plain_is_ordered(b);
    }
    match (a, b) {
        (JsonView::Object(am), JsonView::Object(bm)) => {
            if agree(a, b) {
                assert forall|i: int| 0 <= i < am.len() implies i < bm.len() && #[trigger] am[i]
                    == bm[i] by {
                    same_keys_same_places(am, bm, i);
                    assert forall|k: int| 0 <= k < i implies (#[trigger] bm[k]).0 != am[i].0 by {
                        text_order_is_total(bm[k].0, bm[i].0);
                    }
                    key_is_found(bm, am[i].0, i);
                    agreement_is_equality(am[i].1, bm[i].1);
                }
                if am.len() < bm.len() {
                    same_keys_same_places(bm, am, am.len() as int);
                } else if bm.len() < am.len() {
                    same_keys_same_places(am, bm, bm.len() as int);
                }
                assert(am =~= bm);
            }
            if a == b {
                assert forall|i: int| 0 <= i < am.len() implies {
                    &&& has_key(am, (#[trigger] am[i]).0)
                    &&& agree(am[i].1, value_of(am, am[i].0))
                } by {
                    assert forall|k: int| 0 <= k < i implies (#[trigger] am[k]).0 != am[i].0 by {
                        text_order_is_total(am[k].0, am[i].0);
                    }
                    key_is_found(am, am[i].0, i);
                    agreement_is_equality(am[i].1, am[i].1);
                }
            }
        },
        _ => {},
    }
}

/// The check passes exactly the description that the run recorded, where the
/// keys of both stand in order.
pub proof fn silent_means_equality(a: JsonView, b: JsonView)
    requires
        plain(a) || ordered(a),
        plain(b) || ordered(b),
    ensures
        blob_differences(Some(a), Some(b)).len() == 0 <==> a == b,
{
    silent_means_agreement(""@, a, b);
    agreement_is_equality(a, b);
}

/// A trainer with the knobs the run started with passes the check.
pub proof fn same_description_passes(a: JsonView)
    requires
        keys_are_unique(a),
    ensures
        agree(a, a),
        blob_differences(Some(a), Some(a)).len() == 0,
    decreases a,
{
    if let JsonView::Object(am) = a {
        assert forall|i: int| 0 <= i < am.len() implies {
            &&& has_key(am, (#[trigger] am[i]).0)
            &&& agree(am[i].1, value_of(am, am[i].0))
        } by {
            key_is_found(am, am[i].0, i);
            same_description_passes(am[i].1);
        }
    }
    silent_means_agreement(""@, a, a);
}

/// A missing description is never held against a run.
pub proof fn missing_description_passes(a: Option<JsonView>)
    ensures
        blob_differences(None, a).len() == 0,
        blob_differences(a, None).len() == 0,
{
}

/// The member at place `i` of `am` is reported: as dropped if `bm` has no such
/// key, and as changed if its value there is another one that is no object.
pub proof fn every_difference_is_named(
    path: Seq<char>,
    am: Seq<(Seq<char>, JsonView)>,
    bm: Seq<(Seq<char>, JsonView)>,
    i: int,
)
    ensures
        ({
            let all = differences(path, JsonView::Object(am), JsonView::Object(bm));
            &&& 0 <= i < am.len() && !has_key(bm, am[i].0) ==> all.contains(
                "\""@ + key_path(path, am[i].0) + "\": run had "@ + json_text(am[i].1)
                    + ", incoming doesn't declare it"@,
            )
            &&& 0 <= i < am.len() && has_key(bm, am[i].0) && am[i].1 != value_of(bm, am[i].0)
                && !(am[i].1 is Object) ==> all.contains(
                "\""@ + key_path(path, am[i].0) + "\": run had "@ + json_text(am[i].1)
                    + ", incoming has "@ + json_text(value_of(bm, am[i].0)),
            )
            &&& 0 <= i < bm.len() && !has_key(am, bm[i].0) ==> all.contains(
                "\""@ + key_path(path, bm[i].0) + "\": incoming declares "@ + json_text(bm[i].1)
                    + ", run didn't record it"@,
            )
        }),
{
    let a = JsonView::Object(am);
    let first = member_differences(path, a, bm, am.len());
    let second = added_members(path, am, bm);
    let all = differences(path, a, JsonView::Object(bm));
    assert(all == first + second);
    if 0 <= i < am.len() {
        member_is_reported(path, am, bm, i, am.len());
        assert forall|l: Seq<char>| #[trigger] first.contains(l) implies all.contains(l) by {
            let k = choose|k: int| 0 <= k < first.len() && first[k] == l;
            assert(all[k] == l);
        }
    }
    if 0 <= i < bm.len() && !has_key(am, bm[i].0) {
        addition_is_reported(path, am, bm, i);
        let l = added_line(key_path(path, bm[i].0), bm[i].1);
        let k = choose|k: int| 0 <= k < second.len() && second[k] == l;
        assert(all[first.len() + k] == l);
    }
}

proof fn member_is_reported(
    path: Seq<char>,
    am: Seq<(Seq<char>, JsonView)>,
    bm: Seq<(Seq<char>, JsonView)>,
    i: int,
    n: nat,
)
    requires
        0 <= i < n <= am.len(),
    ensures
        ({
            let lines = member_differences(path, JsonView::Object(am), bm, n);
            &&& !has_key(bm, am[i].0) ==> lines.contains(
                dropped_line(key_path(path, am[i].0), am[i].1),
            )
            &&& has_key(bm, am[i].0) && am[i].1 != value_of(bm, am[i].0) && !(am[i].1 is Object)
                ==> lines.contains(
                changed_line(key_path(path, am[i].0), am[i].1, value_of(bm, am[i].0)),
            )
        }),
    decreases n,
{
    let a = JsonView::Object(am);
    let lines = member_differences(path, a, bm, n);
    let front = member_differences(path, a, bm, (n - 1) as nat);
    let m = am[n - 1];
    let here = key_path(path, m.0);
    let last = if has_key(bm, m.0) {
        differences(here, m.1, value_of(bm, m.0))
    } else {
        seq![dropped_line(here, m.1)]
    };
    assert(lines == front + last);
    if i < n - 1 {
        member_is_reported(path, am, bm, i, (n - 1) as nat);
        assert forall|l: Seq<char>| #[trigger] front.contains(l) implies lines.contains(l) by {
            let k = choose|k: int| 0 <= k < front.len() && front[k] == l;
            assert(lines[k] == l);
        }
    } else {
        assert(last.len() > 0 ==> lines[front.len() as int] == last[0]);
    }
}

proof fn addition_is_reported(
    path: Seq<char>,
    am: Seq<(Seq<char>, JsonView)>,
    bm: Seq<(Seq<char>, JsonView)>,
    i: int,
)
    requires
        0 <= i < bm.len(),
        !has_key(am, bm[i].0),
    ensures
        added_members(path, am, bm).contains(added_line(key_path(path, bm[i].0), bm[i].1)),
    decreases bm.len(),
{
    let all = added_members(path, am, bm);
    let rest = added_members(path, am, bm.drop_last());
    if i < bm.len() - 1 {
        addition_is_reported(path, am, bm.drop_last(), i);
        let l = added_line(key_path(path, bm[i].0), bm[i].1);
        let k = choose|k: int| 0 <= k < rest.len() && rest[k] == l;
        assert(all[k] == l);
    } else {
        assert(all[all.len() - 1] == added_line(key_path(path, bm[i].0), bm[i].1));
    }
}

/// The differences inside a member that both sides have are differences of the
/// whole, under the path that leads there: the keys on the way with dots between
/// them.
pub proof fn nested_differences_are_named(
    path: Seq<char>,
    am: Seq<(Seq<char>, JsonView)>,
    bm: Seq<(Seq<char>, JsonView)>,
    i: int,
    l: Seq<char>,
)
    requires
        0 <= i < am.len(),
        has_key(bm, am[i].0),
    ensures
        ({
            let below = if path.len() == 0 {
                am[i].0
            } else {
                path + "."@ + am[i].0
            };
            differences(below, am[i].1, value_of(bm, am[i].0)).contains(l) ==> differences(
                path,
                JsonView::Object(am),
                JsonView::Object(bm),
            ).contains(l)
        }),
{
    let first = member_differences(path, JsonView::Object(am), bm, am.len());
    let all = differences(path, JsonView::Object(am), JsonView::Object(bm));
    assert(all == first + added_members(path, am, bm));
    if differences(key_path(path, am[i].0), am[i].1, value_of(bm, am[i].0)).contains(l) {
        nested_line_is_in(path, am, bm, i, am.len(), l);
        let k = choose|k: int| 0 <= k < first.len() && first[k] == l;
        assert(all[k] == l);
    }
}

proof fn nested_line_is_in(
    path: Seq<char>,
    am: Seq<(Seq<char>, JsonView)>,
    bm: Seq<(Seq<char>, JsonView)>,
    i: int,
    n: nat,
    l: Seq<char>,
)
    requires
        0 <= i < n <= am.len(),
        has_key(bm, am[i].0),
        differences(key_path(path, am[i].0), am[i].1, value_of(bm, am[i].0)).contains(l),
    ensures
        member_differences(path, JsonView::Object(am), bm, n).contains(l),
    decreases n,
{
    let a = JsonView::Object(am);
    let lines = member_differences(path, a, bm, n);
    let front = member_differences(path, a, bm, (n - 1) as nat);
    if i < n - 1 {
        nested_line_is_in(path, am, bm, i, (n - 1) as nat, l);
        let k = choose|k: int| 0 <= k < front.len() && front[k] == l;
        assert(lines[k] == l);
    } else {
        let last = differences(key_path(path, am[i].0), am[i].1, value_of(bm, am[i].0));
        let k = choose|k: int| 0 <= k < last.len() && last[k] == l;
        assert(lines == front + last);
        assert(lines[front.len() + k] == l);
    }
}

} // verus!
