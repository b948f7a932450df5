//! Character-level helpers shared by the lexer, the parser's diagnostics and
//! the code generator: decimal rendering, `Debug`-style string quoting,
//! joining, and the canonical rendering of number literals.
use vstd::prelude::*;

verus! {

/// Appends one character to a string (std's `String::push`).
///
/// Trusted: the contract claims that `push` adds exactly `c` at the end and
/// changes nothing else.
#[verifier::external_body]
pub(crate) fn push_char(s: &mut String, c: char)
    ensures
        final(s)@ == old(s)@.push(c),
{
    s.push(c);
}

/// Copies the characters of a string slice into a vector.
pub fn chars_of(s: &str) -> (r: Vec<char>)
    ensures
        r@ == s@,
{
    let mut r: Vec<char> = Vec::new();
    for c in it: s.chars()
        invariant
            r@ == it.seq().take(it.index() as int),
    {
        r.push(c);
    }
    r
}

/// Whether two strings have the same characters.
pub fn str_eq(a: &str, b: &str) -> (r: bool)
    ensures
        r == (a@ == b@),
{
    let x = chars_of(a);
    let y = chars_of(b);
    if x.len() != y.len() {
        return false;
    }
    let mut i: usize = 0;
    while i < x.len()
        invariant
            i <= x@.len(),
            x@.len() == y@.len(),
            x@ == a@,
            y@ == b@,
            forall|j: int| 0 <= j < i ==> x@[j] == y@[j],
        decreases x@.len() - i,
    {
        if x[i] != y[i] {
            assert(a@[i as int] != b@[i as int]);
            return false;
        }
        i = i + 1;
    }
    assert(x@ =~= y@);
    true
}

// ---------------------------------------------------------------------------
// Decimal and hexadecimal digits
// ---------------------------------------------------------------------------

/// The decimal digit character for `d` (`0 <= d < 10`).
pub open spec fn digit_char(d: int) -> char {
    (48 + d) as char
}

/// The lower-case hexadecimal digit character for `d` (`0 <= d < 16`).
pub open spec fn hex_char(d: int) -> char {
    if d < 10 {
        (48 + d) as char
    } else {
        (87 + d) as char
    }
}

/// The decimal rendering of a natural number, without leading zeros.
pub open spec fn nat_decimal(n: nat) -> Seq<char>
    decreases n,
{
    if n < 10 {
        seq![digit_char(n as int)]
    } else {
        nat_decimal(n / 10).push(digit_char((n % 10) as int))
    }
}

/// The decimal rendering of an integer, with a leading `-` when negative.
pub open spec fn int_decimal(x: int) -> Seq<char> {
    if x < 0 {
        seq!['-'] + nat_decimal((-x) as nat)
    } else {
        nat_decimal(x as nat)
    }
}

pub fn digit_of(d: usize) -> (c: char)
    requires
        d < 10,
    ensures
        c == digit_char(d as int),
{
    let b: u8 = 48u8 + (d as u8);
    b as char
}

pub fn hex_digit_of(d: u32) -> (c: char)
    requires
        d < 16,
    ensures
        c == hex_char(d as int),
{
    if d < 10 {
        let b: u8 = 48u8 + (d as u8);
        b as char
    } else {
        let b: u8 = 87u8 + (d as u8);
        b as char
    }
}

/// Appends the decimal rendering of `n` to `s`.
pub fn push_decimal(s: &mut String, n: usize)
    ensures
        final(s)@ == old(s)@ + nat_decimal(n as nat),
    decreases n,
{
    if n < 10 {
        push_char(s, digit_of(n));
        assert(old(s)@ + nat_decimal(n as nat) == old(s)@.push(digit_char(n as int)));
    } else {
        push_decimal(s, n / 10);
        push_char(s, digit_of(n % 10));
        assert(nat_decimal(n as nat) == nat_decimal((n / 10) as nat).push(
            digit_char((n % 10) as int),
        ));
    }
}

// ---------------------------------------------------------------------------
// Joining
// ---------------------------------------------------------------------------

/// The parts, separated by `sep`.
pub open spec fn join(parts: Seq<Seq<char>>, sep: Seq<char>) -> Seq<char>
    decreases parts.len(),
{
    if parts.len() == 0 {
        seq![]
    } else if parts.len() == 1 {
        parts[0]
    } else {
        join(parts.drop_last(), sep) + sep + parts.last()
    }
}

// ---------------------------------------------------------------------------
// Debug-style quoting
// ---------------------------------------------------------------------------

/// The unicode escape `\u{..}` with minimal lower-case hexadecimal digits,
/// for a character below U+0100.
pub open spec fn unicode_escape(c: char) -> Seq<char> {
    let v = c as int;
    if v < 16 {
        seq!['\\', 'u', '{', hex_char(v), '}']
    } else {
        seq!['\\', 'u', '{', hex_char(v / 16), hex_char(v % 16), '}']
    }
}

/// Whether `{:?}` on a string escapes a character below U+0100 numerically:
/// the C0 controls, DEL through NO-BREAK SPACE, and SOFT HYPHEN.
pub open spec fn debug_escapes_numerically(c: char) -> bool {
    let v = c as int;
    v < 32 || (127 <= v <= 160) || v == 173
}

/// What std's `char::escape_debug` writes for `c`: the character itself when
/// it is printable, else its `\u{..}` escape (decided by std's Unicode
/// tables).
pub uninterp spec fn escape_debug_of(c: char) -> Seq<char>;

/// Renders a character from U+0100 on as std's `char::escape_debug` does.
///
/// Trusted: the contract claims only that the result is `escape_debug_of(c)`,
/// a function of `c` alone; which characters std escapes (its printable and
/// grapheme-extend tables) is not restated.
#[verifier::external_body]
fn escape_debug_std(c: char) -> (r: String)
    ensures
        r@ == escape_debug_of(c),
{
    c.escape_debug().to_string()
}

/// How `{:?}` on a string renders one character.
pub open spec fn char_debug(c: char) -> Seq<char> {
    if c == '\0' {
        seq!['\\', '0']
    } else if c == '\t' {
        seq!['\\', 't']
    } else if c == '\r' {
        seq!['\\', 'r']
    } else if c == '\n' {
        seq!['\\', 'n']
    } else if c == '\\' {
        seq!['\\', '\\']
    } else if c == '"' {
        seq!['\\', '"']
    } else if (c as int) >= 0x100 {
        escape_debug_of(c)
    } else if debug_escapes_numerically(c) {
        unicode_escape(c)
    } else {
        seq![c]
    }
}

/// The escaped body of a `{:?}`-rendered string.
pub open spec fn debug_body(s: Seq<char>) -> Seq<char>
    decreases s.len(),
{
    if s.len() == 0 {
        seq![]
    } else {
        debug_body(s.drop_last()) + char_debug(s.last())
    }
}

/// A string rendered as `{:?}` renders it: double-quoted and escaped.
pub open spec fn str_debug(s: Seq<char>) -> Seq<char> {
    seq!['"'] + debug_body(s) + seq!['"']
}

fn push_char_debug(out: &mut String, c: char)
    ensures
        final(out)@ == old(out)@ + char_debug(c),
{
    if c == '\0' {
        push_char(out, '\\');
        push_char(out, '0');
    } else if c == '\t' {
        push_char(out, '\\');
        push_char(out, 't');
    } else if c == '\r' {
        push_char(out, '\\');
        push_char(out, 'r');
    } else if c == '\n' {
        push_char(out, '\\');
        push_char(out, 'n');
    } else if c == '\\' {
        push_char(out, '\\');
        push_char(out, '\\');
    } else if c == '"' {
        push_char(out, '\\');
        push_char(out, '"');
    } else if (c as u32) >= 0x100 {
        let esc = escape_debug_std(c);
        out.append(esc.as_str());
    } else {
        let v: u32 = c as u32;
        if v < 32 || (127 <= v && v <= 160) || v == 173 {
            push_char(out, '\\');
            push_char(out, 'u');
            push_char(out, '{');
            if v < 16 {
                push_char(out, hex_digit_of(v));
            } else {
                push_char(out, hex_digit_of(v / 16));
                push_char(out, hex_digit_of(v % 16));
            }
            push_char(out, '}');
        } else {
            push_char(out, c);
        }
    }
}

/// Appends `str_debug(s)` to `out`.
pub fn push_str_debug(out: &mut String, s: &str)
    ensures
        final(out)@ == old(out)@ + str_debug(s@),
{
    let cs = chars_of(s);
    push_char(out, '"');
    let ghost start = out@;
    let mut i: usize = 0;
    while i < cs.len()
        invariant
            i <= cs.len(),
            cs@ == s@,
            out@ == start + debug_body(cs@.take(i as int)),
        decreases cs.len() - i,
    {
        push_char_debug(out, cs[i]);
        proof {
            let t = cs@.take(i + 1);
            assert(t.drop_last() == cs@.take(i as int));
            assert(t.last() == cs@[i as int]);
        }
        i = i + 1;
    }
    assert(cs@.take(cs@.len() as int) == cs@);
    push_char(out, '"');
}

// ---------------------------------------------------------------------------
// Number literals
// ---------------------------------------------------------------------------

/// The digits of a number literal in order, with the position of its decimal
/// point among them, if it has one.
pub open spec fn literal_scan(l: Seq<char>) -> (Seq<char>, Option<int>)
    decreases l.len(),
{
    if l.len() == 0 {
        (seq![], None)
    } else {
        let (d, dot) = literal_scan(l.drop_last());
        if l.last() == '.' {
            (d, Some(d.len() as int))
        } else {
            (d.push(l.last()), dot)
        }
    }
}

/// The digits of a number literal in order, with the number of digits that
/// stand before its decimal point (all of them when it has none).
pub open spec fn literal_digits(l: Seq<char>) -> (Seq<char>, int) {
    let (d, dot) = literal_scan(l);
    match dot {
        Some(p) => (d, p),
        None => (d, d.len() as int),
    }
}

/// Index of the first character of `d` at or after `k` that is not `'0'`.
pub open spec fn skip_zeros(d: Seq<char>, k: int) -> int
    decreases d.len() - k,
{
    if 0 <= k < d.len() && d[k] == '0' {
        skip_zeros(d, k + 1)
    } else {
        k
    }
}

/// Going down from `k` (exclusive end) towards `lo`, the end of `d` once
/// trailing `'0'`s are dropped.
pub open spec fn drop_trailing_zeros(d: Seq<char>, lo: int, k: int) -> int
    decreases k - lo,
{
    if lo < k && k <= d.len() && d[k - 1] == '0' {
        drop_trailing_zeros(d, lo, k - 1)
    } else {
        k
    }
}

/// `n` copies of `'0'`.
pub open spec fn zeros(n: int) -> Seq<char> {
    Seq::new(n as nat, |i: int| '0')
}

/// Whether the literal's value is zero.
pub open spec fn literal_is_zero(l: Seq<char>) -> bool {
    let d = literal_digits(l).0;
    skip_zeros(d, 0) >= d.len()
}

/// The significant digits of a nonzero literal (no leading or trailing zeros).
pub open spec fn literal_sig(l: Seq<char>) -> Seq<char> {
    let d = literal_digits(l).0;
    let z = skip_zeros(d, 0);
    d.subrange(z, drop_trailing_zeros(d, z, d.len() as int))
}

/// How many significant digits of a nonzero literal stand before the decimal
/// point: the literal's value is `0.<sig> * 10^q`.
pub open spec fn literal_point(l: Seq<char>) -> int {
    let (d, p) = literal_digits(l);
    p - skip_zeros(d, 0)
}

/// Plain decimal rendering of `0.<sig> * 10^q`, without exponent.
pub open spec fn plain_decimal(sig: Seq<char>, q: int) -> Seq<char> {
    if q <= 0 {
        seq!['0', '.'] + zeros(-q) + sig
    } else if q >= sig.len() {
        sig + zeros(q - sig.len())
    } else {
        sig.take(q) + seq!['.'] + sig.skip(q)
    }
}

/// The shortest decimal rendering of a number literal's value: no exponent,
/// no leading or trailing zeros, no decimal point for whole numbers. This is
/// how `{}` renders the literal's `f64` value whenever the literal has at most
/// fifteen significant digits and its magnitude lies within `f64`'s normal
/// range (1e-307 to 1e308).
pub open spec fn number_display(l: Seq<char>) -> Seq<char> {
    if literal_is_zero(l) {
        seq!['0']
    } else {
        plain_decimal(literal_sig(l), literal_point(l))
    }
}

proof fn lemma_scan_digits(l: Seq<char>)
    requires
        forall|j: int| 0 <= j < l.len() ==> '0' <= #[trigger] l[j] && l[j] <= '9',
    ensures
        literal_scan(l) == (l, Option::<int>::None),
    decreases l.len(),
{
    if l.len() > 0 {
        lemma_scan_digits(l.drop_last());
        assert(l.drop_last().push(l.last()) == l);
    }
}

proof fn lemma_drop_trailing_zeros(d: Seq<char>, lo: int, k: int)
    requires
        0 <= lo <= k <= d.len(),
    ensures
        lo <= drop_trailing_zeros(d, lo, k) <= k,
        forall|j: int| drop_trailing_zeros(d, lo, k) <= j < k ==> #[trigger] d[j] == '0',
        drop_trailing_zeros(d, lo, k) > lo ==> d[drop_trailing_zeros(d, lo, k) - 1] != '0',
    decreases k - lo,
{
    if lo < k && d[k - 1] == '0' {
        lemma_drop_trailing_zeros(d, lo, k - 1);
    }
}

/// A whole-number literal written without leading zeros renders exactly as
/// it is written.
pub proof fn law_plain_integers_render_as_written(l: Seq<char>)
    requires
        l.len() > 0,
        l[0] != '0',
        forall|j: int| 0 <= j < l.len() ==> '0' <= #[trigger] l[j] && l[j] <= '9',
    ensures
        number_display(l) == l,
{
    lemma_scan_digits(l);
    assert(literal_digits(l) == (l, l.len() as int));
    assert(skip_zeros(l, 0) == 0);
    let m = drop_trailing_zeros(l, 0, l.len() as int);
    lemma_drop_trailing_zeros(l, 0, l.len() as int);
    if m == 0 {
        assert(l[0] == '0');
    }
    let sig = l.subrange(0, m);
    assert(literal_sig(l) == sig);
    assert(literal_point(l) == l.len());
    assert(!literal_is_zero(l));
    assert(sig + zeros(l.len() - m) =~= l);
}

proof fn lemma_scan_with_point(a: Seq<char>, f: Seq<char>)
    requires
        forall|j: int| 0 <= j < a.len() ==> '0' <= #[trigger] a[j] && a[j] <= '9',
        forall|j: int| 0 <= j < f.len() ==> '0' <= #[trigger] f[j] && f[j] <= '9',
    ensures
        literal_scan(a + seq!['.'] + f) == (a + f, Some(a.len() as int)),
    decreases f.len(),
{
    lemma_scan_digits(a);
    let l = a + seq!['.'] + f;
    if f.len() == 0 {
        assert(l.drop_last() == a);
        assert(a + f == a);
    } else {
        lemma_scan_with_point(a, f.drop_last());
        assert(l.drop_last() == a + seq!['.'] + f.drop_last());
        assert((a + f.drop_last()).push(f.last()) == a + f);
    }
}

/// A decimal literal written without superfluous zeros (its whole part has
/// no leading zero, its fraction does not end in one) renders exactly as it
/// is written.
pub proof fn law_plain_decimals_render_as_written(a: Seq<char>, f: Seq<char>)
    requires
        a.len() > 0,
        a[0] != '0',
        f.len() > 0,
        f.last() != '0',
        forall|j: int| 0 <= j < a.len() ==> '0' <= #[trigger] a[j] && a[j] <= '9',
        forall|j: int| 0 <= j < f.len() ==> '0' <= #[trigger] f[j] && f[j] <= '9',
    ensures
        number_display(a + seq!['.'] + f) == a + seq!['.'] + f,
{
    let l = a + seq!['.'] + f;
    let d = a + f;
    lemma_scan_with_point(a, f);
    assert(literal_digits(l) == (d, a.len() as int));
    assert(d[0] == a[0]);
    assert(skip_zeros(d, 0) == 0);
    assert(d[d.len() - 1] == f.last());
    assert(drop_trailing_zeros(d, 0, d.len() as int) == d.len());
    assert(d.subrange(0, d.len() as int) == d);
    assert(literal_sig(l) == d);
    assert(literal_point(l) == a.len());
    assert(!literal_is_zero(l));
    assert(d.take(a.len() as int) == a);
    assert(d.skip(a.len() as int) == f);
}

/// How `{:?}` renders the literal's value (under the same conditions as
/// `number_display`): like `number_display` with `.0` added to whole numbers
/// when `1e-4 <= |v| < 1e16`, and in exponent form (`1e16`, `1.5e-7`) outside
/// that range.
pub open spec fn number_debug(l: Seq<char>) -> Seq<char> {
    if literal_is_zero(l) {
        seq!['0', '.', '0']
    } else {
        let sig = literal_sig(l);
        let q = literal_point(l);
        if -3 <= q && q <= 16 {
            plain_decimal(sig, q) + (if q >= sig.len() {
                seq!['.', '0']
            } else {
                seq![]
            })
        } else {
            sig.take(1) + (if sig.len() > 1 {
                seq!['.'] + sig.skip(1)
            } else {
                seq![]
            }) + seq!['e'] + int_decimal(q - 1)
        }
    }
}

/// The analysis of a literal: its digits, the count before the point, and the
/// bounds of its significant digits.
struct LiteralParts {
    digits: Vec<char>,
    point: usize,
    lo: usize,
    hi: usize,
}

fn literal_parts(l: &str) -> (r: LiteralParts)
    ensures
        r.digits@ == literal_digits(l@).0,
        r.point == literal_digits(l@).1,
        r.lo == skip_zeros(r.digits@, 0),
        r.hi == drop_trailing_zeros(r.digits@, r.lo as int, r.digits@.len() as int),
        r.lo <= r.hi <= r.digits@.len(),
        r.point <= r.digits@.len(),
{
    let cs = chars_of(l);
    let mut digits: Vec<char> = Vec::new();
    let mut dot: Option<usize> = None;
    let mut i: usize = 0;
    while i < cs.len()
        invariant
            i <= cs.len(),
            cs@ == l@,
            literal_scan(cs@.take(i as int)) == (digits@, match dot {
                Some(p) => Some(p as int),
                None => None::<int>,
            }),
            dot matches Some(p) ==> p <= digits@.len(),
            digits@.len() <= i,
        decreases cs.len() - i,
    {
        proof {
            let t = cs@.take(i + 1);
            assert(t.drop_last() == cs@.take(i as int));
            assert(t.last() == cs@[i as int]);
        }
        let c = cs[i];
        if c == '.' {
            dot = Some(digits.len());
        } else {
            digits.push(c);
        }
        i = i + 1;
    }
    assert(cs@.take(cs@.len() as int) == cs@);
    let point = match dot {
        Some(p) => p,
        None => digits.len(),
    };
    let mut lo: usize = 0;
    while lo < digits.len() && digits[lo] == '0'
        invariant
            lo <= digits.len(),
            skip_zeros(digits@, 0) == skip_zeros(digits@, lo as int),
        decreases digits.len() - lo,
    {
        lo = lo + 1;
    }
    let mut hi: usize = digits.len();
    while lo < hi && digits[hi - 1] == '0'
        invariant
            lo <= hi <= digits.len(),
            drop_trailing_zeros(digits@, lo as int, digits@.len() as int)
                == drop_trailing_zeros(digits@, lo as int, hi as int),
        decreases hi - lo,
    {
        hi = hi - 1;
    }
    LiteralParts { digits, point, lo, hi }
}

fn push_zeros(out: &mut String, n: usize)
    ensures
        final(out)@ == old(out)@ + zeros(n as int),
{
    let mut k: usize = 0;
    while k < n
        invariant
            k <= n,
            out@ == old(out)@ + zeros(k as int),
        decreases n - k,
    {
        push_char(out, '0');
        k = k + 1;
        assert(zeros(k as int) == zeros(k - 1).push('0'));
    }
}

fn push_range(out: &mut String, d: &Vec<char>, from: usize, to: usize)
    requires
        from <= to <= d@.len(),
    ensures
        final(out)@ == old(out)@ + d@.subrange(from as int, to as int),
{
    let mut k: usize = from;
    while k < to
        invariant
            from <= k <= to,
            to <= d@.len(),
            out@ == old(out)@ + d@.subrange(from as int, k as int),
        decreases to - k,
    {
        push_char(out, d[k]);
        k = k + 1;
        assert(d@.subrange(from as int, k as int) == d@.subrange(from as int, k - 1).push(
            d@[k - 1],
        ));
    }
}

/// Appends `plain_decimal` of the significant digits `d[lo..hi]` with the
/// point after `point - lo` of them.
fn push_plain(out: &mut String, d: &Vec<char>, lo: usize, hi: usize, point: usize)
    requires
        lo < hi <= d@.len(),
        point <= d@.len(),
    ensures
        final(out)@ == old(out)@ + plain_decimal(
            d@.subrange(lo as int, hi as int),
            point - lo,
        ),
{
    let ghost sig = d@.subrange(lo as int, hi as int);
    let ghost q: int = point - lo;
    if point <= lo {
        push_char(out, '0');
        push_char(out, '.');
        push_zeros(out, lo - point);
        push_range(out, d, lo, hi);
        assert(old(out)@.push('0').push('.') + zeros((lo - point) as int) + sig == old(out)@ + (
        seq!['0', '.'] + zeros(-q) + sig));
    } else if point - lo >= hi - lo {
        push_range(out, d, lo, hi);
        push_zeros(out, point - hi);
    } else {
        push_range(out, d, lo, point);
        push_char(out, '.');
        push_range(out, d, point, hi);
        assert(d@.subrange(lo as int, point as int) == sig.take(q));
        assert(d@.subrange(point as int, hi as int) == sig.skip(q));
    }
}

/// Appends `number_display(l)` to `out`.
pub fn push_number_display(out: &mut String, l: &str)
    ensures
        final(out)@ == old(out)@ + number_display(l@),
{
    let parts = literal_parts(l);
    if parts.lo >= parts.digits.len() {
        push_char(out, '0');
    } else {
        proof {
            lemma_drop_trailing_nonempty(parts.digits@, parts.lo as int);
        }
        push_plain(out, &parts.digits, parts.lo, parts.hi, parts.point);
    }
}

/// Appends `int_decimal(x)` for `x = a - b`.
fn push_difference(out: &mut String, a: usize, b: usize)
    ensures
        final(out)@ == old(out)@ + int_decimal(a - b),
{
    if a >= b {
        push_decimal(out, a - b);
    } else {
        push_char(out, '-');
        push_decimal(out, b - a);
        assert(old(out)@.push('-') + nat_decimal((b - a) as nat) == old(out)@ + (seq!['-']
            + nat_decimal((b - a) as nat)));
    }
}

/// Appends `number_debug(l)` to `out`.
pub fn push_number_debug(out: &mut String, l: &str)
    ensures
        final(out)@ == old(out)@ + number_debug(l@),
{
    let parts = literal_parts(l);
    let d = &parts.digits;
    let lo = parts.lo;
    let hi = parts.hi;
    let point = parts.point;
    if lo >= d.len() {
        push_char(out, '0');
        push_char(out, '.');
        push_char(out, '0');
        assert(old(out)@.push('0').push('.').push('0') == old(out)@ + seq!['0', '.', '0']);
    } else {
        proof {
            lemma_drop_trailing_nonempty(d@, lo as int);
        }
        let ghost sig = d@.subrange(lo as int, hi as int);
        let in_plain_range = if point >= lo {
            point - lo <= 16
        } else {
            lo - point <= 3
        };
        if in_plain_range {
            let ghost before = out@;
            push_plain(out, d, lo, hi, point);
            if point >= hi {
                push_char(out, '.');
                push_char(out, '0');
                assert(out@ == before + (plain_decimal(sig, point - lo) + seq!['.', '0']));
            } else {
                assert(out@ == before + (plain_decimal(sig, point - lo) + seq![]));
            }
        } else {
            let ghost before = out@;
            push_char(out, d[lo]);
            assert(d@.subrange(lo as int, lo + 1) == sig.take(1));
            let ghost mid = out@;
            if hi - lo > 1 {
                push_char(out, '.');
                push_range(out, d, lo + 1, hi);
                assert(d@.subrange(lo + 1, hi as int) == sig.skip(1));
                assert(out@ == mid + (seq!['.'] + sig.skip(1)));
            } else {
                assert(out@ == mid + seq![]);
            }
            let ghost mid2 = out@;
            push_char(out, 'e');
            if point >= lo + 1 {
                push_difference(out, point, lo + 1);
            } else {
                push_char(out, '-');
                push_decimal(out, lo + 1 - point);
                assert(out@ == mid2.push('e') + int_decimal((point - lo) - 1));
            }
        }
    }
}

proof fn lemma_drop_trailing_nonempty(d: Seq<char>, lo: int)
    requires
        0 <= lo < d.len(),
        lo == skip_zeros(d, 0),
    ensures
        lo < drop_trailing_zeros(d, lo, d.len() as int),
{
    lemma_skip_zeros_stops(d, 0);
    lemma_drop_trailing_stops_at(d, lo, d.len() as int);
}

proof fn lemma_skip_zeros_stops(d: Seq<char>, k: int)
    requires
        0 <= k,
    ensures
        skip_zeros(d, k) >= k,
        skip_zeros(d, k) < d.len() ==> d[skip_zeros(d, k)] != '0',
    decreases d.len() - k,
{
    if 0 <= k < d.len() && d[k] == '0' {
        lemma_skip_zeros_stops(d, k + 1);
    }
}

proof fn lemma_drop_trailing_stops_at(d: Seq<char>, lo: int, k: int)
    requires
        0 <= lo < k <= d.len(),
        d[lo] != '0',
    ensures
        lo < drop_trailing_zeros(d, lo, k),
    decreases k - lo,
{
    if d[k - 1] == '0' {
        assert(k - 1 != lo);
        lemma_drop_trailing_stops_at(d, lo, k - 1);
    }
}

} // verus!
