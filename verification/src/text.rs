//! Text building: decimal numbers, padding, joining, CSV quoting.

use vstd::prelude::*;

verus! {

/// The decimal digit `d`.
pub open spec fn digit_char(d: nat) -> char {
    (48 + d) as char
}

/// `n` written in decimal.
pub open spec fn decimal_text(n: nat) -> Seq<char>
    decreases n,
{
    if n < 10 {
        seq![digit_char(n)]
    } else {
        decimal_text(n / 10).push(digit_char(n % 10))
    }
}

/// `c` written `n` times.
pub open spec fn repeated(c: char, n: nat) -> Seq<char> {
    Seq::new(n, |i: int| c)
}

/// `s` with as many `fill` in front as bring it to `width` characters.
pub open spec fn padded_text(s: Seq<char>, fill: char, width: nat) -> Seq<char> {
    if s.len() >= width {
        s
    } else {
        repeated(fill, (width - s.len()) as nat) + s
    }
}

/// The texts in order, with `sep` between neighbours.
pub open spec fn joined_text(parts: Seq<Seq<char>>, sep: Seq<char>) -> Seq<char>
    decreases parts.len(),
{
    if parts.len() == 0 {
        Seq::empty()
    } else if parts.len() == 1 {
        parts[0]
    } else {
        joined_text(parts.drop_last(), sep) + sep + parts.last()
    }
}

/// The views of a list of strings.
pub open spec fn texts(parts: Seq<String>) -> Seq<Seq<char>> {
    parts.map_values(|s: String| s@)
}

fn digit(d: u64) -> (r: &'static str)
    requires
        d < 10,
    ensures
        r@ == seq![digit_char(d as nat)],
{
    proof {
        reveal_strlit("0");
        reveal_strlit("1");
        reveal_strlit("2");
        reveal_strlit("3");
        reveal_strlit("4");
        reveal_strlit("5");
        reveal_strlit("6");
        reveal_strlit("7");
        reveal_strlit("8");
        reveal_strlit("9");
    }
    let r: &'static str = if d == 0 {
        "0"
    } else if d == 1 {
        "1"
    } else if d == 2 {
        "2"
    } else if d == 3 {
        "3"
    } else if d == 4 {
        "4"
    } else if d == 5 {
        "5"
    } else if d == 6 {
        "6"
    } else if d == 7 {
        "7"
    } else if d == 8 {
        "8"
    } else {
        "9"
    };
    assert(r@ =~= seq![digit_char(d as nat)]);
    r
}

/// `n` in decimal, without leading zeros.
pub fn decimal_wide(n: u128) -> (r: String)
    ensures
        r@ == decimal_text(n as nat),
    decreases n,
{
    if n < 10 {
        String::from_str(digit(n as u64))
    } else {
        let mut out = decimal_wide(n / 10);
        out.append(digit((n % 10) as u64));
        assert(out@ =~= decimal_text(n as nat));
        out
    }
}

/// `n` in decimal, without leading zeros.
pub fn decimal(n: u64) -> (r: String)
    ensures
        r@ == decimal_text(n as nat),
{
    decimal_wide(n as u128)
}

/// An optional number in decimal, and the empty text for none.
pub open spec fn optional_decimal_text(n: Option<usize>) -> Seq<char> {
    match n {
        Some(v) => decimal_text(v as nat),
        None => Seq::empty(),
    }
}

pub fn optional_decimal(n: Option<usize>) -> (r: String)
    ensures
        r@ == optional_decimal_text(n),
{
    match n {
        Some(v) => decimal(v as u64),
        None => String::new(),
    }
}

/// `c` repeated `n` times, where `unit` is the text of that one character.
pub fn repeat(unit: &str, n: usize) -> (r: String)
    requires
        unit@.len() == 1,
    ensures
        r@ == repeated(unit@[0], n as nat),
{
    let mut out = String::new();
    let mut i: usize = 0;
    while i < n
        invariant
            i <= n,
            unit@.len() == 1,
            out@ =~= repeated(unit@[0], i as nat),
        decreases n - i,
    {
        out.append(unit);
        i = i + 1;
    }
    out
}

/// `s` padded on the left to `width` characters with the one-character text
/// `fill`.
pub fn pad_left(s: &str, fill: &str, width: usize) -> (r: String)
    requires
        fill@.len() == 1,
    ensures
        r@ == padded_text(s@, fill@[0], width as nat),
{
    let len: usize = s.unicode_len();
    if len >= width {
        String::from_str(s)
    } else {
        let mut out = repeat(fill, width - len);
        out.append(s);
        out
    }
}

/// The texts joined with `sep` between neighbours.
pub fn join(parts: &Vec<String>, sep: &str) -> (r: String)
    ensures
        r@ == joined_text(texts(parts@), sep@),
{
    let mut out = String::new();
    let mut i: usize = 0;
    while i < parts.len()
        invariant
            i <= parts@.len(),
            out@ == joined_text(texts(parts@).take(i as int), sep@),
        decreases parts@.len() - i,
    {
        let ghost all = texts(parts@);
        proof {
            assert(all.take(i + 1).drop_last() =~= all.take(i as int));
            assert(all.take(i + 1).last() == parts@[i as int]@);
        }
        if i > 0 {
            out.append(sep);
        } else {
            assert(all.take(0) =~= Seq::empty());
            assert(out@ + parts@[0]@ =~= parts@[0]@);
        }
        out.append(parts[i].as_str());
        i = i + 1;
    }
    assert(texts(parts@).take(parts@.len() as int) =~= texts(parts@));
    out
}

/// How many characters of a hash stand for it in logs and file names.
pub const SHORT_HASH: usize = 8;

/// The first eight characters of a hash, or all of it if it is shorter.
pub open spec fn short_text(s: Seq<char>) -> Seq<char> {
    if s.len() <= SHORT_HASH {
        s
    } else {
        s.take(SHORT_HASH as int)
    }
}

pub fn short(s: &str) -> (r: String)
    ensures
        r@ == short_text(s@),
{
    let len: usize = s.unicode_len();
    if len <= SHORT_HASH {
        String::from_str(s)
    } else {
        String::from_str(s.substring_char(0, SHORT_HASH))
    }
}

/// Whether two texts are the same.
pub fn same_text(a: &str, b: &str) -> (r: bool)
    ensures
        r == (a@ == b@),
{
    let n: usize = a.unicode_len();
    if n != b.unicode_len() {
        return false;
    }
    let mut i: usize = 0;
    while i < n
        invariant
            i <= n,
            n == a@.len(),
            n == b@.len(),
            forall|j: int| 0 <= j < i ==> a@[j] == b@[j],
        decreases n - i,
    {
        if a.get_char(i) != b.get_char(i) {
            return false;
        }
        i = i + 1;
    }
    assert(a@ =~= b@);
    true
}

// ── CSV ──────────────────────────────────────────────────────────────────

/// Whether a CSV field has to be quoted: it holds a delimiter, a quote or a
/// line break.
pub open spec fn needs_quotes(s: Seq<char>) -> bool {
    exists|i: int| 0 <= i < s.len() && special(#[trigger] s[i])
}

pub open spec fn special(c: char) -> bool {
    c == ',' || c == '"' || c == '\n' || c == '\r'
}

/// `s` with every quote written twice.
pub open spec fn doubled_quotes(s: Seq<char>) -> Seq<char>
    decreases s.len(),
{
    if s.len() == 0 {
        Seq::empty()
    } else if s.last() == '"' {
        doubled_quotes(s.drop_last()).push('"').push('"')
    } else {
        doubled_quotes(s.drop_last()).push(s.last())
    }
}

/// The CSV form of a field (RFC 4180).
pub open spec fn csv_field_text(s: Seq<char>) -> Seq<char> {
    if needs_quotes(s) {
        seq!['"'] + doubled_quotes(s) + seq!['"']
    } else {
        s
    }
}

/// Quotes a CSV field when it holds a delimiter, a quote or a line break, so
/// that it cannot shift the columns behind it.
pub fn csv_field(s: &str) -> (r: String)
    ensures
        r@ == csv_field_text(s@),
{
    let n: usize = s.unicode_len();
    let mut quote = false;
    let mut doubled = String::new();
    let mut i: usize = 0;
    proof {
        reveal_strlit("\"");
        reveal_strlit("\"\"");
    }
    while i < n
        invariant
            i <= n,
            n == s@.len(),
            quote == needs_quotes(s@.take(i as int)),
            doubled@ == doubled_quotes(s@.take(i as int)),
            "\"\""@.len() == 2,
            "\"\""@[0] == '"',
            "\"\""@[1] == '"',
        decreases n - i,
    {
        let c = s.get_char(i);
        let ghost before = s@.take(i as int);
        let ghost after = s@.take(i + 1);
        proof {
            assert(after.drop_last() =~= before);
            assert(after.last() == c);
            if needs_quotes(before) {
                let k = choose|k: int| 0 <= k < before.len() && special(#[trigger] before[k]);
                assert(special(after[k]));
            }
            if needs_quotes(after) && !special(c) {
                let k = choose|k: int| 0 <= k < after.len() && special(#[trigger] after[k]);
                assert(special(before[k]));
            }
            if special(c) {
                assert(special(after[i as int]));
            }
        }
        if c == ',' || c == '"' || c == '\n' || c == '\r' {
            quote = true;
        }
        if c == '"' {
            doubled.append("\"\"");
            assert(doubled@ =~= doubled_quotes(before).push('"').push('"'));
        } else {
            doubled.append(s.substring_char(i, i + 1));
            assert(doubled@ =~= doubled_quotes(before).push(c));
        }
        i = i + 1;
    }
    assert(s@.take(n as int) =~= s@);
    if quote {
        let mut out = String::from_str("\"");
        out.append(doubled.as_str());
        out.append("\"");
        assert("\""@ =~= seq!['"']);
        out
    } else {
        String::from_str(s)
    }
}

/// The text in which every pair of quotes stands for one.
pub open spec fn halved_quotes(s: Seq<char>) -> Seq<char>
    decreases s.len(),
{
    if s.len() == 0 {
        Seq::empty()
    } else if s.last() == '"' && s.len() >= 2 {
        halved_quotes(s.take(s.len() - 2)).push('"')
    } else {
        halved_quotes(s.drop_last()).push(s.last())
    }
}

/// What a CSV reader gets back from a field.
pub open spec fn csv_read(field: Seq<char>) -> Seq<char> {
    if field.len() >= 2 && field[0] == '"' {
        halved_quotes(field.subrange(1, field.len() - 1))
    } else {
        field
    }
}

proof fn halving_undoes_doubling(s: Seq<char>)
    ensures
        halved_quotes(doubled_quotes(s)) == s,
    decreases s.len(),
{
    if s.len() > 0 {
        let rest = s.drop_last();
        halving_undoes_doubling(rest);
        let d = doubled_quotes(s);
        if s.last() == '"' {
            assert(d.take(d.len() - 2) =~= doubled_quotes(rest));
        } else {
            assert(d.drop_last() =~= doubled_quotes(rest));
        }
        assert(rest.push(s.last()) =~= s);
    }
}

/// A CSV reader gets back the text that was written, whatever it holds.
pub proof fn csv_field_reads_back(s: Seq<char>)
    ensures
        csv_read(csv_field_text(s)) == s,
{
    if needs_quotes(s) {
        halving_undoes_doubling(s);
        let f = csv_field_text(s);
        assert(f.subrange(1, f.len() - 1) =~= doubled_quotes(s));
    } else if s.len() >= 2 && s[0] == '"' {
        assert(special(s[0]));
    }
}

/// A field that is written without quotes holds no delimiter and no line
/// break, so it stays one field on one line.
pub proof fn bare_field_is_one_cell(s: Seq<char>, i: int)
    requires
        csv_field_text(s) == s,
        0 <= i < s.len(),
    ensures
        s[i] != ',' && s[i] != '\n' && s[i] != '\r',
{
    if special(s[i]) {
        assert(needs_quotes(s));
        doubling_never_shortens(s);
    }
}

proof fn doubling_never_shortens(s: Seq<char>)
    ensures
        doubled_quotes(s).len() >= s.len(),
    decreases s.len(),
{
    if s.len() > 0 {
        doubling_never_shortens(s.drop_last());
    }
}


// ── Order ────────────────────────────────────────────────────────────────

/// `a` comes before `b` in the order of characters.
pub open spec fn text_below(a: Seq<char>, b: Seq<char>) -> bool
    decreases a.len(),
{
    if b.len() == 0 {
        false
    } else if a.len() == 0 {
        true
    } else if a[0] != b[0] {
        a[0] < b[0]
    } else {
        text_below(a.skip(1), b.skip(1))
    }
}

pub fn text_less(a: &str, b: &str) -> (r: bool)
    ensures
        r == text_below(a@, b@),
{
    let n: usize = a.unicode_len();
    let m: usize = b.unicode_len();
    let mut i: usize = 0;
    assert(a@.skip(0) =~= a@ && b@.skip(0) =~= b@);
    while i < n && i < m
        invariant
            i <= n,
            i <= m,
            n == a@.len(),
            m == b@.len(),
            text_below(a@, b@) == text_below(a@.skip(i as int), b@.skip(i as int)),
        decreases n - i,
    {
        let c = a.get_char(i);
        let d = b.get_char(i);
        proof {
            assert(a@.skip(i as int)[0] == c && b@.skip(i as int)[0] == d);
            assert(a@.skip(i as int).skip(1) =~= a@.skip(i + 1));
            assert(b@.skip(i as int).skip(1) =~= b@.skip(i + 1));
        }
        if c != d {
            return c < d;
        }
        i = i + 1;
    }
    i == n && i < m
}

/// The order of texts is total, and no text comes before itself.
pub proof fn text_order_is_total(a: Seq<char>, b: Seq<char>)
    ensures
        !text_below(a, a),
        a == b || text_below(a, b) || text_below(b, a),
        !(text_below(a, b) && text_below(b, a)),
    decreases a.len(),
{
    if a.len() > 0 {
        if b.len() > 0 {
            text_order_is_total(a.skip(1), b.skip(1));
            if a[0] == b[0] && a.skip(1) == b.skip(1) {
                assert(a =~= seq![a[0]] + a.skip(1));
                assert(b =~= seq![b[0]] + b.skip(1));
            }
        } else {
            text_order_is_total(a.skip(1), a.skip(1));
        }
    } else if b.len() == 0 {
        assert(a =~= b);
    }
}

/// The order of texts is transitive.
pub proof fn text_order_is_transitive(a: Seq<char>, b: Seq<char>, c: Seq<char>)
    requires
        text_below(a, b),
        text_below(b, c),
    ensures
        text_below(a, c),
    decreases a.len(),
{
    if a.len() > 0 && a[0] == b[0] && b[0] == c[0] {
        text_order_is_transitive(a.skip(1), b.skip(1), c.skip(1));
    }
}

/// Joined parts stand in order with the separator between each two, and nowhere
/// else.
pub proof fn joining_separates(a: Seq<Seq<char>>, b: Seq<Seq<char>>, sep: Seq<char>, s: Seq<char>)
    ensures
        a.len() > 0 && b.len() > 0 ==> joined_text(a + b, sep) == joined_text(a, sep) + sep
            + joined_text(b, sep),
        joined_text(seq![s], sep) == s,
        joined_text(Seq::empty(), sep).len() == 0,
    decreases b.len(),
{
    if a.len() > 0 && b.len() > 0 {
        let front = b.drop_last();
        assert((a + b).drop_last() =~= a + front);
        assert((a + b).last() == b.last());
        if b.len() == 1 {
            assert(a + front =~= a);
            assert(joined_text(a + b, sep) =~= joined_text(a, sep) + sep + joined_text(b, sep));
        } else {
            joining_separates(a, front, sep, s);
            assert(joined_text(a + b, sep) =~= joined_text(a, sep) + sep + joined_text(b, sep));
        }
    }
}

/// A short form is the beginning of a text, eight characters of it or all.
pub proof fn a_short_form_is_the_beginning(s: Seq<char>)
    ensures
        short_text(s).len() == (if s.len() < 8 {
            s.len()
        } else {
            8
        }),
        short_text(s) == s.take(short_text(s).len() as int),
        short_text(short_text(s)) == short_text(s),
{
    if s.len() <= 8 {
        assert(s.take(s.len() as int) =~= s);
    }
}

/// A padded text ends with the text, has nothing but the filling in front, and
/// is as wide as asked for unless the text is wider.
pub proof fn padding_goes_in_front(s: Seq<char>, fill: char, width: nat)
    ensures
        ({
            let p = padded_text(s, fill, width);
            &&& p.len() == (if s.len() < width {
                width
            } else {
                s.len()
            })
            &&& p.skip(p.len() - s.len()) == s
            &&& forall|i: int| 0 <= i < p.len() - s.len() ==> #[trigger] p[i] == fill
        }),
{
    let p = padded_text(s, fill, width);
    assert(p.skip(p.len() - s.len()) =~= s);
}

} // verus!
