//! What a run tells its user: the line and the table of a step, the outcome of
//! a roll, the names and headings of the files it leaves. Numbers with a
//! fraction arrive as text.

use vstd::prelude::*;

use crate::config::CrossoverGate;
use crate::run_loop::StepEvolve;
use crate::score::Direction;
use crate::text::{
    decimal, decimal_text, join, joined_text, pad_left, padded_text, repeat, repeated, short,
    short_text, text_below, text_less, text_order_is_total, text_order_is_transitive, texts,
};

verus! {

// ── Sorted names ─────────────────────────────────────────────────────────

/// Where a text goes in a sorted list: behind everything that is not above it.
pub open spec fn text_slot(sorted: Seq<Seq<char>>, s: Seq<char>) -> int
    decreases sorted.len(),
{
    if sorted.len() > 0 && text_below(s, sorted.last()) {
        text_slot(sorted.drop_last(), s)
    } else {
        sorted.len() as int
    }
}

/// The texts in ascending order.
pub open spec fn sorted_texts(parts: Seq<Seq<char>>) -> Seq<Seq<char>>
    decreases parts.len(),
{
    if parts.len() == 0 {
        Seq::empty()
    } else {
        let rest = sorted_texts(parts.drop_last());
        rest.insert(text_slot(rest, parts.last()), parts.last())
    }
}

proof fn slot_is_inside(sorted: Seq<Seq<char>>, s: Seq<char>)
    ensures
        0 <= text_slot(sorted, s) <= sorted.len(),
        forall|j: int|
            text_slot(sorted, s) <= j < sorted.len() ==> text_below(s, #[trigger] sorted[j]),
        text_slot(sorted, s) > 0 ==> !text_below(s, sorted[text_slot(sorted, s) - 1]),
    decreases sorted.len(),
{
    if sorted.len() > 0 && text_below(s, sorted.last()) {
        let rest = sorted.drop_last();
        slot_is_inside(rest, s);
        assert forall|j: int| text_slot(sorted, s) <= j < sorted.len() implies text_below(
            s,
            #[trigger] sorted[j],
        ) by {
            if j < rest.len() {
                assert(rest[j] == sorted[j]);
            }
        }
    }
}

/// The sorted list has the same texts, as often as before.
pub proof fn sorting_keeps_the_names(parts: Seq<Seq<char>>)
    ensures
        sorted_texts(parts).to_multiset() =~= parts.to_multiset(),
        sorted_texts(parts).len() == parts.len(),
    decreases parts.len(),
{
    broadcast use vstd::seq_lib::group_to_multiset_ensures;

    if parts.len() > 0 {
        let front = parts.drop_last();
        let rest = sorted_texts(front);
        let s = parts.last();
        sorting_keeps_the_names(front);
        slot_is_inside(rest, s);
        vstd::seq_lib::to_multiset_insert(rest, text_slot(rest, s), s);
        assert(front.push(s) =~= parts);
    }
}

/// The sorted list ascends.
pub proof fn sorted_names_ascend(parts: Seq<Seq<char>>, i: int, j: int)
    requires
        0 <= i < j < parts.len(),
    ensures
        !text_below(sorted_texts(parts)[j], sorted_texts(parts)[i]),
    decreases parts.len(),
{
    let front = parts.drop_last();
    let rest = sorted_texts(front);
    let s = parts.last();
    let k = text_slot(rest, s);
    sorting_keeps_the_names(front);
    slot_is_inside(rest, s);
    let all = sorted_texts(parts);
    if i < k && j < k {
        sorted_names_ascend(front, i, j);
    } else if i < k && j == k {
        if i < k - 1 {
            sorted_names_ascend(front, i, k - 1);
        }
        text_order_is_total(s, rest[k - 1]);
        text_order_is_total(rest[k - 1], rest[i]);
        if text_below(s, rest[i]) {
            if rest[i] == rest[k - 1] {
            } else {
                text_order_is_transitive(s, rest[i], rest[k - 1]);
            }
        }
    } else if i < k {
        sorted_names_ascend(front, i, j - 1);
    } else if i == k {
        text_order_is_total(s, rest[j - 1]);
    } else {
        sorted_names_ascend(front, i - 1, j - 1);
    }
}

fn sort_names(names: &Vec<String>) -> (r: Vec<String>)
    ensures
        texts(r@) == sorted_texts(texts(names@)),
{
    let mut out: Vec<String> = Vec::new();
    let mut i: usize = 0;
    let ghost all = texts(names@);
    assert(all.take(0) =~= Seq::empty());
    assert(texts(out@) =~= Seq::empty());
    while i < names.len()
        invariant
            i <= names@.len(),
            all == texts(names@),
            texts(out@) == sorted_texts(all.take(i as int)),
        decreases names@.len() - i,
    {
        let ghost done = texts(out@);
        let ghost s = names@[i as int]@;
        assert(all.take(i + 1).drop_last() =~= all.take(i as int));
        let mut k: usize = out.len();
        assert(done.take(k as int) =~= done);
        while k > 0 && text_less(names[i].as_str(), out[k - 1].as_str())
            invariant
                i < names@.len(),
                k <= out@.len(),
                done == texts(out@),
                s == names@[i as int]@,
                text_slot(done.take(k as int), s) == text_slot(done, s),
            decreases k,
        {
            assert(done.take(k as int).drop_last() =~= done.take(k - 1));
            assert(done.take(k as int).last() == out@[k - 1]@);
            k = k - 1;
        }
        proof {
            if k > 0 {
                assert(done.take(k as int).last() == out@[k - 1]@);
            }
            assert(text_slot(done, s) == k);
        }
        out.insert(k, names[i].clone());
        assert(texts(out@) =~= done.insert(k as int, s));
        i = i + 1;
    }
    assert(all.take(names@.len() as int) =~= all);
    out
}

/// The short forms of hashes.
pub open spec fn short_names(hashes: Seq<String>) -> Seq<Seq<char>> {
    hashes.map_values(|h: String| short_text(h@))
}

/// The short forms, sorted and separated by blanks.
pub open spec fn name_list(hashes: Seq<String>) -> Seq<char> {
    joined_text(sorted_texts(short_names(hashes)), " "@)
}

fn make_name_list(hashes: &Vec<String>) -> (r: String)
    ensures
        r@ == name_list(hashes@),
{
    let mut names: Vec<String> = Vec::new();
    let mut i: usize = 0;
    while i < hashes.len()
        invariant
            i <= hashes@.len(),
            texts(names@) =~= short_names(hashes@).take(i as int),
        decreases hashes@.len() - i,
    {
        let ghost before = texts(names@);
        names.push(short(hashes[i].as_str()));
        assert(texts(names@) =~= before.push(short_text(hashes@[i as int]@)));
        i = i + 1;
    }
    assert(texts(names@) =~= short_names(hashes@));
    let sorted = sort_names(&names);
    join(&sorted, " ")
}

// ── The line of a step ───────────────────────────────────────────────────

/// The badge behind a step line: the nets that no cull can reach.
pub open spec fn badge_text(elites: Seq<String>) -> Seq<char> {
    if elites.len() == 0 {
        Seq::empty()
    } else {
        " │ ★ "@ + name_list(elites)
    }
}

pub fn badge(elites: &Vec<String>) -> (r: String)
    ensures
        r@ == badge_text(elites@),
{
    if elites.len() == 0 {
        return String::new();
    }
    let mut out = String::from_str(" │ ★ ");
    out.append(make_name_list(elites).as_str());
    out
}

/// The middle column of a step line: the held-out loss of a run on data, the
/// played volume of any other.
pub open spec fn middle_text(tabular: bool, eval: Seq<char>, volume: Seq<char>) -> Seq<char> {
    if tabular {
        "eval_loss↓ "@ + eval
    } else {
        volume
    }
}

/// The line of a step.
pub open spec fn step_line_text(
    clock: usize,
    live: usize,
    train: Seq<char>,
    middle: Seq<char>,
    direction: Direction,
    fitness: Seq<char>,
    took: Seq<char>,
    elites: Seq<String>,
) -> Seq<char> {
    "step "@ + decimal_text(clock as nat) + " │ pop "@ + decimal_text(live as nat)
        + " │ train_loss↓ "@ + train + " │ "@ + middle + " │ fitness"@ + direction.arrow_text()
        + " "@ + fitness + " │ took "@ + took + "s"@ + badge_text(elites)
}

pub fn step_line(
    clock: usize,
    live: usize,
    train: &str,
    tabular: bool,
    eval: &str,
    volume: &str,
    direction: Direction,
    fitness: &str,
    took: &str,
    elites: &Vec<String>,
) -> (r: String)
    ensures
        r@ == step_line_text(
            clock,
            live,
            train@,
            middle_text(tabular, eval@, volume@),
            direction,
            fitness@,
            took@,
            elites@,
        ),
{
    let mut middle = String::new();
    if tabular {
        middle.append("eval_loss↓ ");
        assert(middle@ =~= "eval_loss↓ "@);
        middle.append(eval);
    } else {
        middle.append(volume);
        assert(middle@ =~= volume@);
    }
    let mut out = String::from_str("step ");
    out.append(decimal(clock as u64).as_str());
    out.append(" │ pop ");
    out.append(decimal(live as u64).as_str());
    out.append(" │ train_loss↓ ");
    out.append(train);
    out.append(" │ ");
    out.append(middle.as_str());
    out.append(" │ fitness");
    out.append(direction.arrow());
    out.append(" ");
    out.append(fitness);
    out.append(" │ took ");
    out.append(took);
    out.append("s");
    out.append(badge(elites).as_str());
    out
}

// ── The table of a step ──────────────────────────────────────────────────

/// The numbers of a table, each with its change where it shows one.
pub struct TableTexts {
    pub train: String,
    pub eval: String,
    pub volume: String,
    pub fitness: String,
    pub took: String,
}

/// What the guards of the elite have to say.
pub struct Guards {
    /// The elites, if the run names them.
    pub elites: Option<Vec<String>>,
    /// The number of demoted nets, if the run demotes.
    pub demoted: Option<usize>,
}

/// The cells of the guard row.
pub open spec fn guard_cells(g: Guards) -> Seq<Seq<char>> {
    (match g.elites {
        Some(e) => seq!["elite: "@ + name_list(e@)],
        None => Seq::empty(),
    }) + (match g.demoted {
        Some(n) => seq!["demoted: "@ + decimal_text(n as nat)],
        None => Seq::empty(),
    })
}

/// The rows of the table.
pub open spec fn table_rows(
    live: usize,
    tabular: bool,
    direction: Direction,
    t: TableTexts,
    e: StepEvolve,
    g: Guards,
) -> Seq<Seq<char>> {
    seq![
        "pop "@ + padded_text(decimal_text(live as nat), ' ', 3) + " │ train_loss↓ "@ + t.train@
            + " │ "@ + middle_text(tabular, t.eval@, t.volume@),
        "fitness"@ + direction.arrow_text() + " "@ + t.fitness@ + " │ culls "@ + decimal_text(
            e.culls as nat,
        ) + " │ inserts "@ + decimal_text(e.inserts as nat),
        "crossover fired "@ + decimal_text(e.cross_fired as nat) + " ("@ + decimal_text(
            e.cross_survived as nat,
        ) + " inserted, "@ + decimal_text(e.cross_discarded as nat)
            + " spent) │ mutation rolled "@ + decimal_text(e.mutate_fired as nat) + " ("@
            + decimal_text(e.mutate_fired as nat) + " immigrant(s))"@,
        "step took "@ + t.took@ + "s"@,
    ] + (if guard_cells(g).len() == 0 {
        Seq::empty()
    } else {
        seq![joined_text(guard_cells(g), " │ "@)]
    })
}

fn guard_row(g: &Guards) -> (r: Option<String>)
    ensures
        match r {
            Some(row) => guard_cells(*g).len() > 0 && row@ == joined_text(guard_cells(*g), " │ "@),
            None => guard_cells(*g).len() == 0,
        },
{
    let mut cells: Vec<String> = Vec::new();
    if let Some(e) = &g.elites {
        let mut cell = String::from_str("elite: ");
        cell.append(make_name_list(e).as_str());
        cells.push(cell);
    }
    if let Some(n) = g.demoted {
        let mut cell = String::from_str("demoted: ");
        cell.append(decimal(n as u64).as_str());
        cells.push(cell);
    }
    assert(texts(cells@) =~= guard_cells(*g));
    if cells.len() == 0 {
        return None;
    }
    Some(join(&cells, " │ "))
}

/// Builds the rows of the table.
pub fn make_table_rows(
    live: usize,
    tabular: bool,
    direction: Direction,
    t: &TableTexts,
    e: &StepEvolve,
    g: &Guards,
) -> (r: Vec<String>)
    ensures
        texts(r@) == table_rows(live, tabular, direction, *t, *e, *g),
{
    proof {
        reveal_strlit(" ");
    }
    let mut first = String::from_str("pop ");
    first.append(pad_left(decimal(live as u64).as_str(), " ", 3).as_str());
    first.append(" │ train_loss↓ ");
    first.append(t.train.as_str());
    first.append(" │ ");
    let ghost front = first@;
    if tabular {
        first.append("eval_loss↓ ");
        first.append(t.eval.as_str());
    } else {
        first.append(t.volume.as_str());
    }
    assert(first@ =~= front + middle_text(tabular, t.eval@, t.volume@));
    let mut second = String::from_str("fitness");
    second.append(direction.arrow());
    second.append(" ");
    second.append(t.fitness.as_str());
    second.append(" │ culls ");
    second.append(decimal(e.culls as u64).as_str());
    second.append(" │ inserts ");
    second.append(decimal(e.inserts as u64).as_str());
    let mut third = String::from_str("crossover fired ");
    third.append(decimal(e.cross_fired as u64).as_str());
    third.append(" (");
    third.append(decimal(e.cross_survived as u64).as_str());
    third.append(" inserted, ");
    third.append(decimal(e.cross_discarded as u64).as_str());
    third.append(" spent) │ mutation rolled ");
    third.append(decimal(e.mutate_fired as u64).as_str());
    third.append(" (");
    third.append(decimal(e.mutate_fired as u64).as_str());
    third.append(" immigrant(s))");
    let mut fourth = String::from_str("step took ");
    fourth.append(t.took.as_str());
    fourth.append("s");
    let mut rows: Vec<String> = Vec::new();
    rows.push(first);
    rows.push(second);
    rows.push(third);
    rows.push(fourth);
    if let Some(row) = guard_row(g) {
        rows.push(row);
    }
    assert(texts(rows@) =~= table_rows(live, tabular, direction, *t, *e, *g));
    rows
}

/// The narrowest inner width of a frame.
pub const MIN_FRAME: usize = 20;

/// The inner width of the frame round some rows.
pub open spec fn frame_width(rows: Seq<Seq<char>>) -> nat
    decreases rows.len(),
{
    if rows.len() == 0 {
        MIN_FRAME as nat
    } else if rows.last().len() > frame_width(rows.drop_last()) {
        rows.last().len()
    } else {
        frame_width(rows.drop_last())
    }
}

/// A row inside its frame.
pub open spec fn framed_row(row: Seq<char>, width: nat) -> Seq<char> {
    "│ "@ + row + repeated(' ', (width - row.len()) as nat) + " │"@
}

/// The rows inside a frame, line by line.
pub open spec fn framed(rows: Seq<Seq<char>>) -> Seq<Seq<char>> {
    let w = frame_width(rows);
    seq!["┌"@ + repeated('-', w + 2) + "┐"@] + rows.map_values(
        |r: Seq<char>| framed_row(r, w),
    ) + seq!["└"@ + repeated('-', w + 2) + "┘"@]
}

proof fn frame_holds_rows(rows: Seq<Seq<char>>, k: int)
    requires
        0 <= k < rows.len(),
    ensures
        rows[k].len() <= frame_width(rows),
    decreases rows.len(),
{
    if k < rows.len() - 1 {
        frame_holds_rows(rows.drop_last(), k);
    }
}

/// Frames rows of text. A row is as wide as its characters.
pub fn frame(rows: &Vec<String>) -> (r: Vec<String>)
    requires
        frame_width(texts(rows@)) <= usize::MAX - 2,
    ensures
        texts(r@) == framed(texts(rows@)),
{
    let ghost all = texts(rows@);
    let mut width: usize = MIN_FRAME;
    let mut i: usize = 0;
    assert(all.take(0) =~= Seq::empty());
    while i < rows.len()
        invariant
            i <= rows@.len(),
            all == texts(rows@),
            width == frame_width(all.take(i as int)),
        decreases rows@.len() - i,
    {
        assert(all.take(i + 1).drop_last() =~= all.take(i as int));
        assert(all.take(i + 1).last() == rows@[i as int]@);
        let n: usize = rows[i].as_str().unicode_len();
        if n > width {
            width = n;
        }
        i = i + 1;
    }
    assert(all.take(rows@.len() as int) =~= all);
    proof {
        reveal_strlit("-");
        reveal_strlit(" ");
    }
    let rule = repeat("-", width + 2);
    let mut out: Vec<String> = Vec::new();
    let mut top = String::from_str("┌");
    top.append(rule.as_str());
    top.append("┐");
    out.push(top);
    let ghost inner = all.map_values(|r: Seq<char>| framed_row(r, width as nat));
    let mut k: usize = 0;
    assert(texts(out@) =~= seq![top@] + inner.take(0));
    while k < rows.len()
        invariant
            k <= rows@.len(),
            all == texts(rows@),
            width == frame_width(all),
            " "@.len() == 1,
            " "@[0] == ' ',
            inner == all.map_values(|r: Seq<char>| framed_row(r, width as nat)),
            texts(out@) == seq![top@] + inner.take(k as int),
        decreases rows@.len() - k,
    {
        let n: usize = rows[k].as_str().unicode_len();
        proof {
            frame_holds_rows(all, k as int);
            assert(all[k as int] == rows@[k as int]@);
        }
        let mut line = String::from_str("│ ");
        line.append(rows[k].as_str());
        line.append(repeat(" ", width - n).as_str());
        line.append(" │");
        let ghost before = texts(out@);
        out.push(line);
        assert(texts(out@) =~= before.push(line@));
        assert(inner.take(k + 1) =~= inner.take(k as int).push(line@));
        assert(texts(out@) =~= seq![top@] + inner.take(k + 1));
        k = k + 1;
    }
    assert(inner.take(rows@.len() as int) =~= inner);
    let ghost before = texts(out@);
    let mut bottom = String::from_str("└");
    bottom.append(rule.as_str());
    bottom.append("┘");
    out.push(bottom);
    assert(texts(out@) =~= before.push(bottom@));
    assert(texts(out@) =~= framed(all));
    out
}

/// Every line of a frame, borders and rows alike, is equally wide, however long
/// the texts.
pub proof fn framed_lines_are_even(rows: Seq<Seq<char>>, k: int)
    requires
        0 <= k < framed(rows).len(),
    ensures
        framed(rows).len() == rows.len() + 2,
        framed(rows)[k].len() == frame_width(rows) + 4,
{
    reveal_strlit("│ ");
    reveal_strlit(" │");
    reveal_strlit("┌");
    reveal_strlit("┐");
    reveal_strlit("└");
    reveal_strlit("┘");
    if 0 < k <= rows.len() {
        frame_holds_rows(rows, k - 1);
    }
}

// ── The outcome of a roll ────────────────────────────────────────────────

/// How a gate is called.
pub open spec fn gate_name(gate: CrossoverGate) -> Seq<char> {
    match gate {
        CrossoverGate::Hard => "hard"@,
        CrossoverGate::Soft => "soft"@,
    }
}

fn gate_label(gate: CrossoverGate) -> (r: &'static str)
    ensures
        r@ == gate_name(gate),
{
    match gate {
        CrossoverGate::Hard => "hard",
        CrossoverGate::Soft => "soft",
    }
}

/// No pair of parents could be crossed.
pub fn childless_detail(pairings: usize, attempt: usize) -> (r: String)
    ensures
        r@ == "no child: "@ + decimal_text(pairings as nat) + " parent-pairing draw(s) × "@
            + decimal_text(attempt as nat)
            + " gate attempt(s) all incompatible (no compatible pivot/dims)"@,
{
    let mut out = String::from_str("no child: ");
    out.append(decimal(pairings as u64).as_str());
    out.append(" parent-pairing draw(s) × ");
    out.append(decimal(attempt as u64).as_str());
    out.append(" gate attempt(s) all incompatible (no compatible pivot/dims)");
    out
}

/// The child repeats a live topology.
pub fn duplicate_detail(child: &str) -> (r: String)
    ensures
        r@ == "child "@ + short_text(child@) + " duplicates a live topology → discarded"@,
{
    let mut out = String::from_str("child ");
    out.append(short(child).as_str());
    out.append(" duplicates a live topology → discarded");
    out
}

/// The child fell short at checkpoint `number` of `total`.
pub fn shortfall_detail(
    child: &str,
    gate: CrossoverGate,
    number: usize,
    total: usize,
    direction: Direction,
    fitness: &str,
    bar: &str,
    step: usize,
) -> (r: String)
    ensures
        r@ == "child "@ + short_text(child@) + " rejected by "@ + gate_name(gate) + " gate "@
            + decimal_text(number as nat) + "/"@ + decimal_text(total as nat) + " ("@
            + direction.arrow_text() + fitness@ + " vs bar "@ + bar@ + ") → discarded at step "@
            + decimal_text(step as nat),
{
    let mut out = String::from_str("child ");
    out.append(short(child).as_str());
    out.append(" rejected by ");
    out.append(gate_label(gate));
    out.append(" gate ");
    out.append(decimal(number as u64).as_str());
    out.append("/");
    out.append(decimal(total as u64).as_str());
    out.append(" (");
    out.append(direction.arrow());
    out.append(fitness);
    out.append(" vs bar ");
    out.append(bar);
    out.append(") → discarded at step ");
    out.append(decimal(step as u64).as_str());
    out
}

/// The short form of a victim, if there is one.
pub open spec fn victim_text(victim: Option<String>) -> Seq<char> {
    match victim {
        Some(v) => short_text(v@),
        None => "none"@,
    }
}

/// Where a child comes from, if that is known.
pub open spec fn known_lineage(lineage: Option<String>) -> Seq<char> {
    match lineage {
        Some(l) => l@,
        None => "?"@,
    }
}

/// The note on the checkpoints a child passed: its fitness at the last one and
/// the bar, or nothing if there was none.
pub open spec fn gate_note(gate: CrossoverGate, passed: Option<(String, String)>) -> Seq<char> {
    match passed {
        Some((fitness, bar)) => " | gate "@ + gate_name(gate) + " "@ + fitness@ + " vs bar "@
            + bar@,
        None => Seq::empty(),
    }
}

/// A crossover child joined.
pub fn crossover_detail(
    child: &str,
    lineage: &Option<String>,
    gate: CrossoverGate,
    passed: &Option<(String, String)>,
    victim: &Option<String>,
) -> (r: String)
    ensures
        r@ == "child "@ + short_text(child@) + " ("@ + known_lineage(*lineage) + ") inserted"@
            + gate_note(gate, *passed) + ", victim "@ + victim_text(*victim) + " culled"@,
{
    let mut out = String::from_str("child ");
    out.append(short(child).as_str());
    out.append(" (");
    match lineage {
        Some(l) => {
            out.append(l.as_str());
        },
        None => {
            out.append("?");
        },
    }
    out.append(") inserted");
    let ghost front = out@;
    if let Some((fitness, bar)) = passed {
        out.append(" | gate ");
        out.append(gate_label(gate));
        out.append(" ");
        out.append(fitness.as_str());
        out.append(" vs bar ");
        out.append(bar.as_str());
    }
    assert(out@ =~= front + gate_note(gate, *passed));
    out.append(", victim ");
    match victim {
        Some(v) => {
            out.append(short(v.as_str()).as_str());
        },
        None => {
            out.append("none");
        },
    }
    out.append(" culled");
    out
}

/// An immigrant joined; `fresh` if it did not replay the past.
pub open spec fn immigrant_text(
    victim: Seq<char>,
    reason: Seq<char>,
    child: Seq<char>,
    fresh: Option<usize>,
) -> Seq<char> {
    "victim "@ + short_text(victim) + " culled ("@ + reason + "), immigrant "@ + short_text(child)
        + " inserted (no gate"@ + (match fresh {
        Some(clock) => ", FRESH-START at step "@ + decimal_text(clock as nat) + " — no catch-up"@,
        None => Seq::empty(),
    }) + ")"@
}

pub fn immigrant_detail(victim: &str, reason: &str, child: &str, fresh: Option<usize>) -> (r: String)
    ensures
        r@ == immigrant_text(victim@, reason@, child@, fresh),
{
    let mut out = String::from_str("victim ");
    out.append(short(victim).as_str());
    out.append(" culled (");
    out.append(reason);
    out.append("), immigrant ");
    out.append(short(child).as_str());
    out.append(" inserted (no gate");
    let ghost front = out@;
    if let Some(clock) = fresh {
        out.append(", FRESH-START at step ");
        out.append(decimal(clock as u64).as_str());
        out.append(" — no catch-up");
        assert(out@ =~= front + (", FRESH-START at step "@ + decimal_text(clock as nat)
            + " — no catch-up"@));
    } else {
        assert(out@ =~= front + Seq::empty());
    }
    out.append(")");
    out
}

// ── What is left at the end ──────────────────────────────────────────────

/// The name of a file about a champion or about the worst net.
pub open spec fn artifact_text(best: bool, hash: Seq<char>, extension: Seq<char>) -> Seq<char> {
    (if best {
        "elite-"@
    } else {
        "worst-"@
    }) + short_text(hash) + "."@ + extension
}

pub fn artifact_name(best: bool, hash: &str, extension: &str) -> (r: String)
    ensures
        r@ == artifact_text(best, hash@, extension@),
{
    let mut out = String::from_str(
        if best {
            "elite-"
        } else {
            "worst-"
        },
    );
    out.append(short(hash).as_str());
    out.append(".");
    out.append(extension);
    out
}

/// What a net is called in a heading: a champion has a rank if there are
/// several.
pub open spec fn title_text(rank: Option<usize>, champions: usize) -> Seq<char> {
    match rank {
        None => "Worst"@,
        Some(k) => if champions <= 1 {
            "Elite"@
        } else {
            "Elite #"@ + decimal_text(k as nat + 1)
        },
    }
}

/// The heading over the topology of a champion, or of the worst net.
pub fn heading(
    rank: Option<usize>,
    champions: usize,
    direction: Direction,
    fitness: &str,
    body: &str,
) -> (r: String)
    requires
        rank matches Some(k) ==> k < champions,
    ensures
        r@ == "**"@ + title_text(rank, champions) + " · fitness "@ + direction.arrow_text()
            + " (smoothed) = "@ + fitness@ + "**\n\n"@ + body@,
{
    let mut out = String::from_str("**");
    let ghost front = out@;
    match rank {
        None => {
            out.append("Worst");
        },
        Some(k) => {
            if champions <= 1 {
                out.append("Elite");
            } else {
                out.append("Elite #");
                out.append(decimal(k as u64 + 1).as_str());
            }
        },
    }
    assert(out@ =~= front + title_text(rank, champions));
    out.append(" · fitness ");
    out.append(direction.arrow());
    out.append(" (smoothed) = ");
    out.append(fitness);
    out.append("**\n\n");
    out.append(body);
    out
}

/// How old a champion's numbers are. A frozen one was measured once and has
/// carried its numbers since.
pub fn age_label(frozen: bool, step: usize) -> (r: String)
    ensures
        r@ == (if frozen {
            "frozen@"@
        } else {
            "last_step "@
        }) + decimal_text(step as nat),
{
    let mut out = String::from_str(
        if frozen {
            "frozen@"
        } else {
            "last_step "
        },
    );
    out.append(decimal(step as u64).as_str());
    out
}

/// How to take the run up again. The size of the population is part of the
/// call, as a run is not taken up with another one.
pub fn resume_hint(live: usize, clock: usize, run_dir: &str) -> (r: String)
    ensures
        r@ == "  "@ + decimal_text(live as nat) + " live net(s) at step "@ + decimal_text(
            clock as nat,
        ) + " → resume with: --resume "@ + run_dir@ + " --pop "@ + decimal_text(live as nat),
{
    let mut out = String::from_str("  ");
    out.append(decimal(live as u64).as_str());
    out.append(" live net(s) at step ");
    out.append(decimal(clock as u64).as_str());
    out.append(" → resume with: --resume ");
    out.append(run_dir);
    out.append(" --pop ");
    out.append(decimal(live as u64).as_str());
    out
}

/// A frame holds every row, in order, behind its left edge and with nothing but
/// blanks up to its right one. It is as wide as the longest row, and never
/// narrower than 20.
pub proof fn a_frame_holds_every_row(rows: Seq<Seq<char>>, k: int)
    requires
        0 <= k < rows.len(),
    ensures
        ({
            let line = framed(rows)[k + 1];
            let row = rows[k];
            &&& line.take(2) == "│ "@
            &&& line.subrange(2, 2 + row.len() as int) == row
            &&& forall|i: int| 2 + row.len() <= i < line.len() - 2 ==> #[trigger] line[i] == ' '
            &&& line.skip(line.len() - 2) == " │"@
            &&& row.len() <= frame_width(rows)
        }),
        frame_width(rows) >= 20,
        frame_width(rows) == 20 || exists|j: int|
            0 <= j < rows.len() && (#[trigger] rows[j]).len() == frame_width(rows),
{
    reveal_strlit("│ ");
    reveal_strlit(" │");
    frame_holds_rows(rows, k);
    let line = framed(rows)[k + 1];
    let row = rows[k];
    assert(line == framed_row(row, frame_width(rows)));
    assert(line.take(2) =~= "│ "@);
    assert(line.subrange(2, 2 + row.len() as int) =~= row);
    assert(line.skip(line.len() - 2) =~= " │"@);
    the_frame_is_just_wide_enough(rows);
}

proof fn the_frame_is_just_wide_enough(rows: Seq<Seq<char>>)
    ensures
        frame_width(rows) >= 20,
        frame_width(rows) == 20 || exists|j: int|
            0 <= j < rows.len() && (#[trigger] rows[j]).len() == frame_width(rows),
    decreases rows.len(),
{
    if rows.len() > 0 {
        let front = rows.drop_last();
        the_frame_is_just_wide_enough(front);
        if rows.last().len() > frame_width(front) {
            assert(rows[rows.len() - 1].len() == frame_width(rows));
        } else if frame_width(front) != 20 {
            let j = choose|j: int|
                0 <= j < front.len() && (#[trigger] front[j]).len() == frame_width(front);
            assert(rows[j].len() == frame_width(rows));
        }
    }
}

/// A badge lists the elites by their short forms, and is nothing without any.
pub proof fn a_badge_needs_an_elite(elites: Seq<String>)
    ensures
        badge_text(elites).len() == 0 <==> elites.len() == 0,
        elites.len() > 0 ==> badge_text(elites) == " │ ★ "@ + name_list(elites),
{
    reveal_strlit(" │ ★ ");
}

/// How nets and gates are called: the worst net has a name of its own, a single
/// champion no rank, and of several each the rank that its place gives it,
/// counted from 1. A file is named after what it is about, its net and its kind.
pub proof fn everything_has_its_name(
    k: usize,
    champions: usize,
    hash: Seq<char>,
    extension: Seq<char>,
)
    ensures
        title_text(None, champions) == "Worst"@,
        champions <= 1 ==> title_text(Some(k), champions) == "Elite"@,
        champions > 1 ==> title_text(Some(k), champions) == "Elite #"@ + decimal_text(k as nat + 1),
        artifact_text(true, hash, extension) == "elite-"@ + short_text(hash) + "."@ + extension,
        artifact_text(false, hash, extension) == "worst-"@ + short_text(hash) + "."@ + extension,
        gate_name(CrossoverGate::Hard) == "hard"@,
        gate_name(CrossoverGate::Soft) == "soft"@,
{
}

/// What a line says only sometimes: the held-out loss of a run on data and the
/// volume of any other, the bar of a child that passed one, the victim of a child
/// that had one, and the step at which an immigrant started without a past.
pub proof fn lines_say_what_there_is_to_say(
    eval: Seq<char>,
    volume: Seq<char>,
    gate: CrossoverGate,
    fitness: String,
    bar: String,
    victim: String,
    reason: Seq<char>,
    child: Seq<char>,
    clock: usize,
)
    ensures
        middle_text(true, eval, volume) == "eval_loss↓ "@ + eval,
        middle_text(false, eval, volume) == volume,
        gate_note(gate, None).len() == 0,
        gate_note(gate, Some((fitness, bar))) == " | gate "@ + gate_name(gate) + " "@ + fitness@
            + " vs bar "@ + bar@,
        victim_text(Some(victim)) == short_text(victim@),
        victim_text(None) == "none"@,
        known_lineage(Some(victim)) == victim@,
        known_lineage(None) == "?"@,
        immigrant_text(victim@, reason, child, None) == "victim "@ + short_text(victim@)
            + " culled ("@ + reason + "), immigrant "@ + short_text(child) + " inserted (no gate)"@,
        immigrant_text(victim@, reason, child, Some(clock)) == "victim "@ + short_text(victim@)
            + " culled ("@ + reason + "), immigrant "@ + short_text(child)
            + " inserted (no gate, FRESH-START at step "@ + decimal_text(clock as nat)
            + " — no catch-up)"@,
{
    reveal_strlit(" inserted (no gate");
    reveal_strlit(")");
    reveal_strlit(" inserted (no gate)");
    reveal_strlit(", FRESH-START at step ");
    reveal_strlit(" inserted (no gate, FRESH-START at step ");
    reveal_strlit(" — no catch-up");
    reveal_strlit(" — no catch-up)");
    let front = "victim "@ + short_text(victim@) + " culled ("@ + reason + "), immigrant "@
        + short_text(child);
    assert(immigrant_text(victim@, reason, child, None) =~= front + " inserted (no gate)"@);
    assert(immigrant_text(victim@, reason, child, Some(clock)) =~= front
        + " inserted (no gate, FRESH-START at step "@ + decimal_text(clock as nat)
        + " — no catch-up)"@);
}

/// The rows of the table tell the counters of the step apart: each stands in one
/// place, behind its own words.
pub proof fn the_table_tells_the_counters(
    live: usize,
    tabular: bool,
    direction: Direction,
    t: TableTexts,
    e: StepEvolve,
    g: Guards,
)
    ensures
        ({
            let rows = table_rows(live, tabular, direction, t, e, g);
            &&& rows.len() == (if g.elites is None && g.demoted is None {
                4int
            } else {
                5int
            })
            &&& rows[1] == "fitness"@ + direction.arrow_text() + " "@ + t.fitness@ + " │ culls "@
                + decimal_text(e.culls as nat) + " │ inserts "@ + decimal_text(e.inserts as nat)
            &&& rows[2] == "crossover fired "@ + decimal_text(e.cross_fired as nat) + " ("@
                + decimal_text(e.cross_survived as nat) + " inserted, "@ + decimal_text(
                e.cross_discarded as nat,
            ) + " spent) │ mutation rolled "@ + decimal_text(e.mutate_fired as nat) + " ("@
                + decimal_text(e.mutate_fired as nat) + " immigrant(s))"@
            &&& rows[3] == "step took "@ + t.took@ + "s"@
            &&& g.elites is None ==> (g.demoted matches Some(n) ==> rows[4] == "demoted: "@
                + decimal_text(n as nat))
            &&& g.demoted is None ==> (g.elites matches Some(names) ==> rows[4] == "elite: "@
                + name_list(names@))
            &&& g.elites matches Some(names) ==> (g.demoted matches Some(n) ==> rows[4] == "elite: "@
                + name_list(names@) + " │ "@ + ("demoted: "@ + decimal_text(n as nat)))
        }),
{
    let cells = guard_cells(g);
    reveal_with_fuel(joined_text, 3);
    if g.elites is Some && g.demoted is Some {
        assert(cells.drop_last() =~= seq![cells[0]]);
        assert(joined_text(cells.drop_last(), " │ "@) == cells[0]);
    }
}

} // verus!
