//! The JSON that the vault's files are made of: strings, numbers, and the
//! promise that a record never breaks its line.

use crate::text;
use vstd::prelude::*;

verus! {

// ── strings ─────────────────────────────────────────────────────────────────

/// The lower-case character of a hexadecimal digit.
pub open spec fn low_hex_char(d: int) -> char {
    if d < 10 {
        (48 + d) as char
    } else {
        (87 + d) as char
    }
}

/// How a character stands in a JSON string: quotes, backslashes and control
/// characters are escaped, all others stand for themselves.
pub open spec fn escape_of(c: char) -> Seq<char> {
    let n = c as u32 as int;
    if c == '"' {
        seq!['\\', '"']
    } else if c == '\\' {
        seq!['\\', '\\']
    } else if n == 8 {
        seq!['\\', 'b']
    } else if n == 9 {
        seq!['\\', 't']
    } else if n == 10 {
        seq!['\\', 'n']
    } else if n == 12 {
        seq!['\\', 'f']
    } else if n == 13 {
        seq!['\\', 'r']
    } else if n < 32 {
        seq!['\\', 'u', '0', '0', low_hex_char(n / 16), low_hex_char(n % 16)]
    } else {
        seq![c]
    }
}

pub open spec fn escaped(s: Seq<char>) -> Seq<char>
    decreases s.len(),
{
    if s.len() == 0 {
        Seq::empty()
    } else {
        escape_of(s[0]) + escaped(s.skip(1))
    }
}

/// The JSON string of `s`.
#[verifier::opaque]
pub open spec fn json_text(s: Seq<char>) -> Seq<char> {
    seq!['"'] + escaped(s) + seq!['"']
}

/// No control character in `s`, and so no line break.
pub open spec fn unbroken(s: Seq<char>) -> bool {
    forall|i: int| 0 <= i < s.len() ==> ' ' <= #[trigger] s[i]
}

/// `s` can be the line of a record: it opens an object and holds no control
/// character.
pub open spec fn is_line(s: Seq<char>) -> bool {
    unbroken(s) && s.len() > 0 && s[0] == '{'
}

/// `serde_json::to_string` on a string: the string in quotes, with quotes,
/// backslashes and control characters escaped.
#[verifier::external_body]
pub(crate) fn json_string(s: &str) -> (r: String)
    ensures
        r@ == json_text(s@),
{
    serde_json::to_string(s).unwrap()
}

/// What an escape looks like: it holds no control character, and begins with a
/// backslash unless it is a character that needs none.
proof fn lemma_escape(c: char)
    ensures
        unbroken(escape_of(c)),
        escape_of(c).len() == 1 || escape_of(c).len() == 2 || escape_of(c).len() == 6,
        escape_of(c)[0] != '"',
        escape_of(c).len() == 1 <==> escape_of(c)[0] != '\\',
        escape_of(c).len() == 1 ==> escape_of(c)[0] == c,
        escape_of(c).len() == 6 <==> escape_of(c)[0] == '\\' && escape_of(c)[1] == 'u',
{
    let e = escape_of(c);
    assert forall|i: int| 0 <= i < e.len() implies ' ' <= #[trigger] e[i] by {
        if e.len() == 6 {
            assert(i == 0 || i == 1 || i == 2 || i == 3 || i == 4 || i == 5);
        }
    }
}

/// An escape stands for one character only.
proof fn lemma_escape_injective(c: char, d: char)
    requires
        escape_of(c) == escape_of(d),
    ensures
        c == d,
{
    lemma_escape(c);
    lemma_escape(d);
    if escape_of(c).len() == 6 {
        assert(escape_of(c)[4] == escape_of(d)[4]);
        assert(escape_of(c)[5] == escape_of(d)[5]);
        assert(c as u32 == d as u32);
    } else if escape_of(c).len() == 2 {
        assert(escape_of(c)[1] == escape_of(d)[1]);
        assert(c as u32 == d as u32);
    }
}

proof fn lemma_escaped_unbroken(s: Seq<char>)
    ensures
        unbroken(escaped(s)),
    decreases s.len(),
{
    if s.len() > 0 {
        lemma_escaped_unbroken(s.skip(1));
        lemma_escape(s[0]);
    }
}

/// Whatever `s` holds, its JSON string holds no line break.
pub proof fn law_json_text_is_unbroken(s: Seq<char>)
    ensures
        unbroken(json_text(s)),
{
    reveal(json_text);
    lemma_escaped_unbroken(s);
}

/// What is escaped, and the quote behind it, tell where they end and what they
/// stand for.
proof fn lemma_escaped_prefix(a: Seq<char>, ra: Seq<char>, b: Seq<char>, rb: Seq<char>)
    requires
        escaped(a) + seq!['"'] + ra == escaped(b) + seq!['"'] + rb,
    ensures
        a == b,
        ra == rb,
    decreases a.len(),
{
    let x = escaped(a) + seq!['"'] + ra;
    let y = escaped(b) + seq!['"'] + rb;
    if a.len() == 0 || b.len() == 0 {
        if a.len() > 0 {
            lemma_escape(a[0]);
            assert(x[0] == escape_of(a[0])[0]);
            assert(y[0] == '"');
        }
        if b.len() > 0 {
            lemma_escape(b[0]);
            assert(y[0] == escape_of(b[0])[0]);
            assert(x[0] == '"');
        }
        assert(a =~= b);
        assert(x.skip(1) =~= ra);
        assert(y.skip(1) =~= rb);
    } else {
        let ea = escape_of(a[0]);
        let eb = escape_of(b[0]);
        let ta = escaped(a.skip(1)) + seq!['"'] + ra;
        let tb = escaped(b.skip(1)) + seq!['"'] + rb;
        lemma_escape(a[0]);
        lemma_escape(b[0]);
        assert(x =~= ea + ta);
        assert(y =~= eb + tb);
        lemma_same_head(ea, ta, eb, tb);
        lemma_escape_injective(a[0], b[0]);
        lemma_escaped_prefix(a.skip(1), ra, b.skip(1), rb);
        assert(a =~= seq![a[0]] + a.skip(1));
        assert(b =~= seq![b[0]] + b.skip(1));
    }
}

/// Two texts that begin with an escape each begin with the same one.
proof fn lemma_same_head(ea: Seq<char>, ta: Seq<char>, eb: Seq<char>, tb: Seq<char>)
    requires
        ea + ta == eb + tb,
        ea.len() == 1 || ea.len() == 2 || ea.len() == 6,
        eb.len() == 1 || eb.len() == 2 || eb.len() == 6,
        ea.len() == 1 <==> ea[0] != '\\',
        eb.len() == 1 <==> eb[0] != '\\',
        ea.len() == 6 <==> ea[0] == '\\' && ea[1] == 'u',
        eb.len() == 6 <==> eb[0] == '\\' && eb[1] == 'u',
    ensures
        ea == eb,
        ta == tb,
{
    let x = ea + ta;
    let y = eb + tb;
    assert(x[0] == ea[0] && y[0] == eb[0]);
    if ea.len() > 1 && eb.len() > 1 {
        assert(x[1] == ea[1] && y[1] == eb[1]);
    }
    assert(ea.len() == eb.len());
    assert(x.take(ea.len() as int) =~= ea);
    assert(y.take(eb.len() as int) =~= eb);
    assert(x.skip(ea.len() as int) =~= ta);
    assert(y.skip(eb.len() as int) =~= tb);
}

/// A JSON string tells where it ends and what it stands for, whatever follows.
pub proof fn law_json_text_reads_back(a: Seq<char>, ra: Seq<char>, b: Seq<char>, rb: Seq<char>)
    requires
        json_text(a) + ra == json_text(b) + rb,
    ensures
        a == b,
        ra == rb,
{
    reveal(json_text);
    assert((json_text(a) + ra).skip(1) =~= escaped(a) + seq!['"'] + ra);
    assert((json_text(b) + rb).skip(1) =~= escaped(b) + seq!['"'] + rb);
    lemma_escaped_prefix(a, ra, b, rb);
}

// ── numbers ─────────────────────────────────────────────────────────────────

/// The character of a decimal digit.
pub open spec fn digit_char(d: int) -> char {
    (48 + d) as char
}

/// `n` in decimal, without leading zeros.
pub open spec fn decimal(n: nat) -> Seq<char>
    decreases n,
{
    if n < 10 {
        seq![digit_char(n as int)]
    } else {
        decimal(n / 10).push(digit_char((n % 10) as int))
    }
}

/// The decimals of `f` thousandths: no trailing zero, but at least one digit.
pub open spec fn decimals(f: int) -> Seq<char> {
    if f % 100 == 0 {
        seq![digit_char(f / 100)]
    } else if f % 10 == 0 {
        seq![digit_char(f / 100), digit_char(f / 10 % 10)]
    } else {
        seq![digit_char(f / 100), digit_char(f / 10 % 10), digit_char(f % 10)]
    }
}

/// `millis` milliseconds as a JSON number of seconds.
pub open spec fn seconds_text(millis: int) -> Seq<char> {
    let n = if millis < 0 {
        -millis
    } else {
        millis
    };
    let sign = if millis < 0 {
        seq!['-']
    } else {
        Seq::empty()
    };
    sign + decimal((n / 1000) as nat) + (seq!['.'] + decimals(n % 1000))
}

/// The upper-case character of a hexadecimal digit.
pub open spec fn hex_char(d: int) -> char {
    if d < 10 {
        (48 + d) as char
    } else {
        (55 + d) as char
    }
}

/// The last `width` hexadecimal digits of `n`, in upper case.
pub open spec fn hex_text(n: nat, width: nat) -> Seq<char>
    decreases width,
{
    if width == 0 {
        Seq::empty()
    } else {
        hex_text(n / 16, (width - 1) as nat).push(hex_char((n % 16) as int))
    }
}

pub open spec fn bool_text(b: bool) -> Seq<char> {
    if b {
        "true"@
    } else {
        "false"@
    }
}

/// A string behind `lead`, which holds the comma and the name of a field.
pub open spec fn text_field(lead: Seq<char>, value: Seq<char>) -> Seq<char> {
    lead + json_text(value)
}

/// A string field that is left out when empty.
pub open spec fn kept_text_field(lead: Seq<char>, value: Seq<char>) -> Seq<char> {
    if value.len() == 0 {
        Seq::empty()
    } else {
        text_field(lead, value)
    }
}

pub open spec fn number_field(lead: Seq<char>, n: int) -> Seq<char> {
    lead + decimal(n as nat)
}

/// A number field that is left out when zero.
pub open spec fn kept_number_field(lead: Seq<char>, n: int) -> Seq<char> {
    if n == 0 {
        Seq::empty()
    } else {
        number_field(lead, n)
    }
}

/// A number field that is left out when there is no number.
pub open spec fn kept_number_option(lead: Seq<char>, n: Option<u64>) -> Seq<char> {
    match n {
        Some(k) => number_field(lead, k as int),
        None => Seq::empty(),
    }
}

pub open spec fn flag_field(lead: Seq<char>, b: bool) -> Seq<char> {
    lead + bool_text(b)
}

/// A flag that is left out when false.
pub open spec fn kept_flag_field(lead: Seq<char>, b: bool) -> Seq<char> {
    if b {
        flag_field(lead, true)
    } else {
        Seq::empty()
    }
}

/// `s` is empty or goes on with something else than a part of a number.
pub open spec fn ends_number(s: Seq<char>) -> bool {
    s.len() == 0 || !(text::is_digit_char(s[0]) || s[0] == '.')
}

pub proof fn lemma_decimal_digits(n: nat)
    ensures
        decimal(n).len() > 0,
        forall|i: int| 0 <= i < decimal(n).len() ==> text::is_digit_char(#[trigger] decimal(n)[i]),
    decreases n,
{
    if n >= 10 {
        lemma_decimal_digits(n / 10);
    }
}

proof fn lemma_decimal_injective(n: nat, m: nat)
    requires
        decimal(n) == decimal(m),
    ensures
        n == m,
    decreases n,
{
    lemma_decimal_digits(n / 10);
    lemma_decimal_digits(m / 10);
    assert(decimal(n).last() == digit_char((n % 10) as int));
    assert(decimal(m).last() == digit_char((m % 10) as int));
    if n >= 10 && m >= 10 {
        assert(decimal(n).drop_last() =~= decimal(n / 10));
        assert(decimal(m).drop_last() =~= decimal(m / 10));
        lemma_decimal_injective(n / 10, m / 10);
    } else {
        assert(n < 10 ==> decimal(n).len() == 1);
        assert(m < 10 ==> decimal(m).len() == 1);
    }
}

/// Two texts that begin with digits, and go on with something else, begin with
/// the same digits.
proof fn lemma_same_digits(da: Seq<char>, ra: Seq<char>, db: Seq<char>, rb: Seq<char>)
    requires
        da + ra == db + rb,
        forall|i: int| 0 <= i < da.len() ==> text::is_digit_char(#[trigger] da[i]),
        forall|i: int| 0 <= i < db.len() ==> text::is_digit_char(#[trigger] db[i]),
        ra.len() == 0 || !text::is_digit_char(ra[0]),
        rb.len() == 0 || !text::is_digit_char(rb[0]),
    ensures
        da == db,
        ra == rb,
{
    let x = da + ra;
    let y = db + rb;
    if da.len() < db.len() {
        assert(y[da.len() as int] == db[da.len() as int]);
        assert(x[da.len() as int] == ra[0]);
    }
    if db.len() < da.len() {
        assert(x[db.len() as int] == da[db.len() as int]);
        assert(y[db.len() as int] == rb[0]);
    }
    assert(x.take(da.len() as int) =~= da);
    assert(y.take(db.len() as int) =~= db);
    assert(x.skip(da.len() as int) =~= ra);
    assert(y.skip(db.len() as int) =~= rb);
}

/// A number tells where it ends and which one it is.
pub proof fn law_decimal_reads_back(n: nat, ra: Seq<char>, m: nat, rb: Seq<char>)
    requires
        decimal(n) + ra == decimal(m) + rb,
        ends_number(ra),
        ends_number(rb),
    ensures
        n == m,
        ra == rb,
{
    lemma_decimal_digits(n);
    lemma_decimal_digits(m);
    lemma_same_digits(decimal(n), ra, decimal(m), rb);
    lemma_decimal_injective(n, m);
}

proof fn lemma_decimals_injective(f: int, g: int)
    requires
        0 <= f < 1000,
        0 <= g < 1000,
        decimals(f) == decimals(g),
    ensures
        f == g,
{
    let df = decimals(f);
    let dg = decimals(g);
    assert(df[0] as u32 == 48 + f / 100 && dg[0] as u32 == 48 + g / 100);
    if df.len() > 1 {
        assert(df[1] as u32 == 48 + f / 10 % 10 && dg[1] as u32 == 48 + g / 10 % 10);
    }
    if df.len() > 2 {
        assert(df[2] as u32 == 48 + f % 10 && dg[2] as u32 == 48 + g % 10);
    }
    assert(f == f / 100 * 100 + f / 10 % 10 * 10 + f % 10);
    assert(g == g / 100 * 100 + g / 10 % 10 * 10 + g % 10);
}

/// A number of seconds tells where it ends and which one it is.
pub proof fn law_seconds_read_back(a: int, ra: Seq<char>, b: int, rb: Seq<char>)
    requires
        seconds_text(a) + ra == seconds_text(b) + rb,
        ends_number(ra),
        ends_number(rb),
    ensures
        a == b,
        ra == rb,
{
    let n = if a < 0 {
        -a
    } else {
        a
    };
    let m = if b < 0 {
        -b
    } else {
        b
    };
    let wa = decimal((n / 1000) as nat);
    let wb = decimal((m / 1000) as nat);
    let fa = decimals(n % 1000);
    let fb = decimals(m % 1000);
    let point = seq!['.'];
    lemma_decimal_digits((n / 1000) as nat);
    lemma_decimal_digits((m / 1000) as nat);
    let x = seconds_text(a) + ra;
    let y = seconds_text(b) + rb;
    assert(x[0] == (if a < 0 {
        '-'
    } else {
        wa[0]
    }));
    assert(y[0] == (if b < 0 {
        '-'
    } else {
        wb[0]
    }));
    let skip = if a < 0 {
        1int
    } else {
        0
    };
    assert(x.skip(skip) =~= wa + (point + fa + ra));
    assert(y.skip(skip) =~= wb + (point + fb + rb));
    lemma_same_digits(wa, point + fa + ra, wb, point + fb + rb);
    assert(point + fa + ra =~= point + (fa + ra));
    assert(point + fb + rb =~= point + (fb + rb));
    lemma_behind(point, fa + ra, fb + rb);
    lemma_same_digits(fa, ra, fb, rb);
    lemma_decimal_injective((n / 1000) as nat, (m / 1000) as nat);
    lemma_decimals_injective(n % 1000, m % 1000);
}

/// Behind the same beginning, equal texts go on in the same way.
pub proof fn lemma_behind(lead: Seq<char>, a: Seq<char>, b: Seq<char>)
    requires
        lead + a == lead + b,
    ensures
        a == b,
{
    assert((lead + a).skip(lead.len() as int) =~= a);
    assert((lead + b).skip(lead.len() as int) =~= b);
}

pub proof fn lemma_text_field_reads_back(
    lead: Seq<char>,
    a: Seq<char>,
    ra: Seq<char>,
    b: Seq<char>,
    rb: Seq<char>,
)
    requires
        text_field(lead, a) + ra == text_field(lead, b) + rb,
    ensures
        a == b,
        ra == rb,
{
    assert(text_field(lead, a) + ra =~= lead + (json_text(a) + ra));
    assert(text_field(lead, b) + rb =~= lead + (json_text(b) + rb));
    lemma_behind(lead, json_text(a) + ra, json_text(b) + rb);
    law_json_text_reads_back(a, ra, b, rb);
}

pub proof fn lemma_number_field_reads_back(
    lead: Seq<char>,
    a: int,
    ra: Seq<char>,
    b: int,
    rb: Seq<char>,
)
    requires
        number_field(lead, a) + ra == number_field(lead, b) + rb,
        0 <= a,
        0 <= b,
        ends_number(ra),
        ends_number(rb),
    ensures
        a == b,
        ra == rb,
{
    assert(number_field(lead, a) + ra =~= lead + (decimal(a as nat) + ra));
    assert(number_field(lead, b) + rb =~= lead + (decimal(b as nat) + rb));
    lemma_behind(lead, decimal(a as nat) + ra, decimal(b as nat) + rb);
    law_decimal_reads_back(a as nat, ra, b as nat, rb);
}

pub proof fn lemma_flag_field_reads_back(
    lead: Seq<char>,
    a: bool,
    ra: Seq<char>,
    b: bool,
    rb: Seq<char>,
)
    requires
        flag_field(lead, a) + ra == flag_field(lead, b) + rb,
    ensures
        a == b,
        ra == rb,
{
    reveal_strlit("true");
    reveal_strlit("false");
    assert(flag_field(lead, a) + ra =~= lead + (bool_text(a) + ra));
    assert(flag_field(lead, b) + rb =~= lead + (bool_text(b) + rb));
    lemma_behind(lead, bool_text(a) + ra, bool_text(b) + rb);
    assert((bool_text(a) + ra)[0] == bool_text(a)[0]);
    assert((bool_text(b) + rb)[0] == bool_text(b)[0]);
    lemma_behind(bool_text(a), ra, rb);
}

/// A field that may be left out, and what follows: either it is there or what
/// follows begins otherwise, so that the two cannot be taken for each other.
pub proof fn lemma_kept_text_field_reads_back(
    lead: Seq<char>,
    a: Seq<char>,
    ra: Seq<char>,
    b: Seq<char>,
    rb: Seq<char>,
)
    requires
        kept_text_field(lead, a) + ra == kept_text_field(lead, b) + rb,
        !text::has_prefix(ra, lead),
        !text::has_prefix(rb, lead),
    ensures
        a == b,
        ra == rb,
{
    let empty = Seq::<char>::empty();
    assert(empty + ra =~= ra);
    assert(empty + rb =~= rb);
    if a.len() > 0 && b.len() > 0 {
        lemma_text_field_reads_back(lead, a, ra, b, rb);
    } else if a.len() > 0 {
        assert((text_field(lead, a) + ra).take(lead.len() as int) =~= lead);
    } else if b.len() > 0 {
        assert((text_field(lead, b) + rb).take(lead.len() as int) =~= lead);
    } else {
        assert(a =~= b);
    }
}

pub proof fn lemma_kept_number_field_reads_back(
    lead: Seq<char>,
    a: int,
    ra: Seq<char>,
    b: int,
    rb: Seq<char>,
)
    requires
        kept_number_field(lead, a) + ra == kept_number_field(lead, b) + rb,
        0 <= a,
        0 <= b,
        ends_number(ra),
        ends_number(rb),
        !text::has_prefix(ra, lead),
        !text::has_prefix(rb, lead),
    ensures
        a == b,
        ra == rb,
{
    let empty = Seq::<char>::empty();
    assert(empty + ra =~= ra);
    assert(empty + rb =~= rb);
    if a != 0 && b != 0 {
        lemma_number_field_reads_back(lead, a, ra, b, rb);
    } else if a != 0 {
        assert((number_field(lead, a) + ra).take(lead.len() as int) =~= lead);
    } else if b != 0 {
        assert((number_field(lead, b) + rb).take(lead.len() as int) =~= lead);
    }
}

pub proof fn lemma_kept_flag_field_reads_back(
    lead: Seq<char>,
    a: bool,
    ra: Seq<char>,
    b: bool,
    rb: Seq<char>,
)
    requires
        kept_flag_field(lead, a) + ra == kept_flag_field(lead, b) + rb,
        !text::has_prefix(ra, lead),
        !text::has_prefix(rb, lead),
    ensures
        a == b,
        ra == rb,
{
    let empty = Seq::<char>::empty();
    assert(empty + ra =~= ra);
    assert(empty + rb =~= rb);
    if a && b {
        lemma_flag_field_reads_back(lead, a, ra, b, rb);
    } else if a {
        assert((flag_field(lead, a) + ra).take(lead.len() as int) =~= lead);
    } else if b {
        assert((flag_field(lead, b) + rb).take(lead.len() as int) =~= lead);
    }
}

/// The text of a field that may be left out: nothing, or something behind `lead`.
pub open spec fn is_behind(field: Seq<char>, lead: Seq<char>) -> bool {
    field.len() == 0 || text::has_prefix(field, lead)
}

/// A field behind `other` that may be left out, and what follows, are not taken
/// for the field behind `lead`.
pub proof fn lemma_not_taken_for(
    field: Seq<char>,
    other: Seq<char>,
    rest: Seq<char>,
    lead: Seq<char>,
    i: int,
)
    requires
        is_behind(field, other),
        0 <= i < other.len(),
        i < lead.len(),
        other[i] != lead[i],
        !text::has_prefix(rest, lead),
    ensures
        !text::has_prefix(field + rest, lead),
{
    let whole = field + rest;
    if field.len() == 0 {
        assert(whole =~= rest);
    } else if text::has_prefix(whole, lead) {
        assert(field.take(other.len() as int)[i] == other[i]);
        assert(whole[i] == field[i]);
        assert(whole.take(lead.len() as int)[i] == lead[i]);
    }
}

/// A field behind `other` that is there, and what follows, are not taken for the
/// field behind `lead`.
pub proof fn lemma_begins_otherwise(
    field: Seq<char>,
    other: Seq<char>,
    rest: Seq<char>,
    lead: Seq<char>,
    i: int,
)
    requires
        text::has_prefix(field, other),
        0 <= i < other.len(),
        i < lead.len(),
        other[i] != lead[i],
    ensures
        !text::has_prefix(field + rest, lead),
{
    let whole = field + rest;
    if text::has_prefix(whole, lead) {
        assert(field.take(other.len() as int)[i] == other[i]);
        assert(whole[i] == field[i]);
        assert(whole.take(lead.len() as int)[i] == lead[i]);
    }
}

/// A field that may be left out, and what follows, end a number.
pub proof fn lemma_field_ends_number(field: Seq<char>, lead: Seq<char>, rest: Seq<char>)
    requires
        is_behind(field, lead),
        lead.len() > 0,
        ends_number(lead),
        ends_number(rest),
    ensures
        ends_number(field + rest),
{
    let whole = field + rest;
    if field.len() == 0 {
        assert(whole =~= rest);
    } else {
        assert(field.take(lead.len() as int)[0] == lead[0]);
        assert(whole[0] == field[0]);
    }
}

pub proof fn lemma_kept_fields_are_behind(lead: Seq<char>, t: Seq<char>, n: int, b: bool)
    ensures
        is_behind(kept_text_field(lead, t), lead),
        is_behind(kept_number_field(lead, n), lead),
        is_behind(kept_flag_field(lead, b), lead),
{
    assert(text_field(lead, t).take(lead.len() as int) =~= lead);
    assert(number_field(lead, n).take(lead.len() as int) =~= lead);
    assert(flag_field(lead, true).take(lead.len() as int) =~= lead);
}

/// The text of a field: its name in quotes, a colon and its value.
pub open spec fn field_text(key: Seq<char>, value: Seq<char>) -> Seq<char> {
    seq!['"'] + key + seq!['"', ':'] + value
}

/// An object goes on, or ends, here.
pub open spec fn goes_on(s: Seq<char>) -> bool {
    s.len() > 0 && (s[0] == ',' || s[0] == '}')
}

/// At `i` in the object `obj` stands the field `key` with the value `value`:
/// behind the opening brace or a comma, and before a comma or the closing brace.
pub open spec fn is_field_at(obj: Seq<char>, key: Seq<char>, value: Seq<char>, i: int) -> bool {
    let field = field_text(key, value);
    &&& text::occurs_at(obj, field, i)
    &&& i > 0 && (obj[i - 1] == '{' || obj[i - 1] == ',')
    &&& goes_on(obj.skip(i + field.len()))
}

/// The object `obj` has the field `key` with the value `value`.
#[verifier::opaque]
pub open spec fn has_field(obj: Seq<char>, key: Seq<char>, value: Seq<char>) -> bool {
    exists|i: int| #[trigger] is_field_at(obj, key, value, i)
}

/// A field right behind a brace or a comma.
pub proof fn lemma_field_at_the_front(
    lead: Seq<char>,
    key: Seq<char>,
    value: Seq<char>,
    rest: Seq<char>,
)
    requires
        lead =~= seq!['{', '"'] + key + seq!['"', ':'] || lead =~= seq![',', '"'] + key + seq![
            '"',
            ':',
        ],
        goes_on(rest),
    ensures
        has_field(lead + value + rest, key, value),
{
    let obj = lead + value + rest;
    let field = field_text(key, value);
    let n = field.len() as int;
    assert(obj.subrange(1, 1 + n) =~= field);
    assert(obj.skip(1 + n) =~= rest);
    assert(is_field_at(obj, key, value, 1));
    reveal(has_field);
}

/// What a later part of an object has, the object has.
pub proof fn lemma_fields_behind(front: Seq<char>, rest: Seq<char>)
    ensures
        forall|key: Seq<char>, value: Seq<char>|
            has_field(rest, key, value) ==> #[trigger] has_field(front + rest, key, value),
{
    reveal(has_field);
    assert forall|key: Seq<char>, value: Seq<char>| has_field(rest, key, value) implies #[trigger] has_field(
    front + rest, key, value) by {
        let i = choose|i: int| #[trigger] is_field_at(rest, key, value, i);
        let obj = front + rest;
        let n = front.len() as int;
        let field = field_text(key, value);
        assert(obj.subrange(n + i, n + i + field.len()) =~= rest.subrange(i, i + field.len()));
        assert(obj.skip(n + i + field.len()) =~= rest.skip(i + field.len()));
        assert(is_field_at(obj, key, value, n + i));
    }
}

/// Where the brackets stand makes no difference.
pub proof fn lemma_regroup(a: Seq<char>, b: Seq<char>, c: Seq<char>)
    ensures
        (a + b) + c == a + (b + c),
{
    assert((a + b) + c =~= a + (b + c));
}

proof fn lemma_decimal_unbroken(n: nat)
    ensures
        unbroken(decimal(n)),
    decreases n,
{
    if n >= 10 {
        lemma_decimal_unbroken(n / 10);
    }
}

proof fn lemma_seconds_unbroken(millis: int)
    ensures
        unbroken(seconds_text(millis)),
{
    let n = if millis < 0 {
        -millis
    } else {
        millis
    };
    lemma_decimal_unbroken((n / 1000) as nat);
}

// ── writing ─────────────────────────────────────────────────────────────────

fn push_digit(out: &mut String, d: u64)
    requires
        d < 10,
    ensures
        final(out)@ == old(out)@.push(digit_char(d as int)),
{
    out.push((48u8 + d as u8) as char);
}

/// Append `n` in decimal.
pub fn push_decimal(out: &mut String, n: u64)
    ensures
        final(out)@ == old(out)@ + decimal(n as nat),
    decreases n,
{
    if n >= 10 {
        push_decimal(out, n / 10);
    }
    push_digit(out, n % 10);
    assert(n < 10 ==> out@ =~= old(out)@ + seq![digit_char(n as int)]);
    assert(n >= 10 ==> out@ =~= old(out)@ + decimal((n / 10) as nat).push(
        digit_char((n % 10) as int),
    ));
}

/// Append `millis` milliseconds as a number of seconds.
pub fn push_seconds(out: &mut String, millis: i64)
    ensures
        final(out)@ == old(out)@ + seconds_text(millis as int),
        unbroken(old(out)@) ==> unbroken(final(out)@),
{
    let n: u64 = if millis < 0 {
        (-(millis + 1)) as u64 + 1
    } else {
        millis as u64
    };
    if millis < 0 {
        out.push('-');
    }
    push_decimal(out, n / 1000);
    out.push('.');
    let f: u64 = n % 1000;
    push_digit(out, f / 100);
    if f % 100 != 0 {
        push_digit(out, f / 10 % 10);
        if f % 10 != 0 {
            push_digit(out, f % 10);
        }
    }
    assert(out@ =~= old(out)@ + seconds_text(millis as int));
    proof {
        lemma_seconds_unbroken(millis as int);
    }
}

/// Append the last `width` hexadecimal digits of `n`.
pub fn push_hex(out: &mut String, n: u64, width: u64)
    ensures
        final(out)@ == old(out)@ + hex_text(n as nat, width as nat),
    decreases width,
{
    if width > 0 {
        push_hex(out, n / 16, width - 1);
        let d: u64 = n % 16;
        if d < 10 {
            out.push((48u8 + d as u8) as char);
        } else {
            out.push((55u8 + d as u8) as char);
        }
    }
    assert(out@ =~= old(out)@ + hex_text(n as nat, width as nat));
}

/// Append `s` as it stands.
pub fn push_raw(out: &mut String, s: &str)
    ensures
        final(out)@ == old(out)@ + s@,
        unbroken(old(out)@) && unbroken(s@) ==> unbroken(final(out)@),
{
    out.append(s);
}

/// Append a string field.
pub fn push_text_field(out: &mut String, lead: &str, value: &str)
    ensures
        final(out)@ == old(out)@ + text_field(lead@, value@),
        unbroken(old(out)@) && unbroken(lead@) ==> unbroken(final(out)@),
{
    let j = json_string(value);
    out.append(lead);
    out.append(j.as_str());
    assert(out@ =~= old(out)@ + text_field(lead@, value@));
    proof {
        law_json_text_is_unbroken(value@);
    }
}

/// Append a string field unless it is empty.
pub fn push_kept_text_field(out: &mut String, lead: &str, value: &str)
    ensures
        final(out)@ == old(out)@ + kept_text_field(lead@, value@),
        unbroken(old(out)@) && unbroken(lead@) ==> unbroken(final(out)@),
{
    if value.is_empty() {
        assert(out@ =~= old(out)@ + Seq::<char>::empty());
    } else {
        push_text_field(out, lead, value);
    }
}

/// Append a number field.
pub fn push_number_field(out: &mut String, lead: &str, n: u64)
    ensures
        final(out)@ == old(out)@ + number_field(lead@, n as int),
        unbroken(old(out)@) && unbroken(lead@) ==> unbroken(final(out)@),
{
    out.append(lead);
    push_decimal(out, n);
    proof {
        lemma_decimal_unbroken(n as nat);
    }
    assert(out@ =~= old(out)@ + number_field(lead@, n as int));
}

/// Append a number field unless it is zero.
pub fn push_kept_number_field(out: &mut String, lead: &str, n: u64)
    ensures
        final(out)@ == old(out)@ + kept_number_field(lead@, n as int),
        unbroken(old(out)@) && unbroken(lead@) ==> unbroken(final(out)@),
{
    if n == 0 {
        assert(out@ =~= old(out)@ + Seq::<char>::empty());
    } else {
        push_number_field(out, lead, n);
    }
}

/// Append `lead` and `n`, or nothing if there is no number.
pub fn push_kept_number_option(out: &mut String, lead: &str, n: Option<u64>)
    ensures
        final(out)@ == old(out)@ + kept_number_option(lead@, n),
        unbroken(old(out)@) && unbroken(lead@) ==> unbroken(final(out)@),
{
    match n {
        Some(k) => push_number_field(out, lead, k),
        None => {
            assert(out@ =~= old(out)@ + Seq::<char>::empty());
        },
    }
}

/// Append a field that holds a number of seconds.
pub fn push_seconds_field(out: &mut String, lead: &str, millis: i64)
    ensures
        final(out)@ == old(out)@ + (lead@ + seconds_text(millis as int)),
        unbroken(old(out)@) && unbroken(lead@) ==> unbroken(final(out)@),
{
    out.append(lead);
    push_seconds(out, millis);
    assert(out@ =~= old(out)@ + (lead@ + seconds_text(millis as int)));
}

/// Append a flag.
pub fn push_flag_field(out: &mut String, lead: &str, b: bool)
    ensures
        final(out)@ == old(out)@ + flag_field(lead@, b),
        unbroken(old(out)@) && unbroken(lead@) ==> unbroken(final(out)@),
{
    proof {
        reveal_strlit("true");
        reveal_strlit("false");
    }
    out.append(lead);
    if b {
        out.append("true");
    } else {
        out.append("false");
    }
    assert(out@ =~= old(out)@ + flag_field(lead@, b));
}

/// Append a flag unless it is false.
pub fn push_kept_flag_field(out: &mut String, lead: &str, b: bool)
    ensures
        final(out)@ == old(out)@ + kept_flag_field(lead@, b),
        unbroken(old(out)@) && unbroken(lead@) ==> unbroken(final(out)@),
{
    if b {
        push_flag_field(out, lead, true);
    } else {
        assert(out@ =~= old(out)@ + Seq::<char>::empty());
    }
}

// ── laws ────────────────────────────────────────────────────────────────────

/// A number is written with the digit of least weight last: ten times a number
/// and a digit more is that number's text and the digit. A single digit stands
/// alone, so no text begins with a zero but that of zero.
pub proof fn law_decimal_is_positional(n: nat, d: nat)
    requires
        d < 10,
    ensures
        decimal(d).len() == 1 && decimal(d)[0] as u32 == '0' as u32 + d,
        n > 0 ==> decimal(10 * n + d) == decimal(n) + decimal(d),
        n > 0 ==> decimal(n)[0] != '0',
    decreases n,
{
    if n > 0 {
        assert((10 * n + d) / 10 == n && (10 * n + d) % 10 == d);
        assert(decimal(10 * n + d) =~= decimal(n) + decimal(d));
    }
    if n >= 10 {
        law_decimal_is_positional(n / 10, d);
        lemma_decimal_digits(n / 10);
        assert(decimal(n)[0] == decimal(n / 10)[0]);
    }
}

/// Seconds are written with their tenths, and with as many of the hundredths
/// and thousandths as are not zero at the end. A negative number has a minus in
/// front.
pub proof fn law_seconds_are_positional(s: nat, a: nat, b: nat, c: nat)
    requires
        a < 10,
        b < 10,
        c < 10,
    ensures
        seconds_text((1000 * s + 100 * a) as int) == decimal(s) + seq!['.'] + decimal(a),
        b > 0 ==> seconds_text((1000 * s + 100 * a + 10 * b) as int) == decimal(s) + seq!['.']
            + decimal(a) + decimal(b),
        c > 0 ==> seconds_text((1000 * s + 100 * a + 10 * b + c) as int) == decimal(s) + seq!['.']
            + decimal(a) + decimal(b) + decimal(c),
        s > 0 ==> seconds_text(-(s as int)) == seq!['-'] + seconds_text(s as int),
{
    lemma_seconds(s, (100 * a) as int);
    assert(seconds_text((1000 * s + 100 * a) as int) =~= decimal(s) + seq!['.'] + decimal(a));
    if b > 0 {
        lemma_seconds(s, (100 * a + 10 * b) as int);
        lemma_hundredths(a, b);
        assert(decimal(s) + (seq!['.'] + (decimal(a) + decimal(b))) =~= decimal(s) + seq!['.']
            + decimal(a) + decimal(b));
    }
    if c > 0 {
        lemma_seconds(s, (100 * a + 10 * b + c) as int);
        lemma_thousandths(a, b, c);
        assert(decimal(s) + (seq!['.'] + (decimal(a) + decimal(b) + decimal(c))) =~= decimal(s)
            + seq!['.'] + decimal(a) + decimal(b) + decimal(c));
    }
    if s > 0 {
        let n = s as int;
        let whole = decimal((n / 1000) as nat);
        let part = seq!['.'] + decimals(n % 1000);
        assert(Seq::<char>::empty() + whole + part =~= whole + part);
        assert(seq!['-'] + whole + part =~= seq!['-'] + (whole + part));
    }
}

proof fn lemma_seconds(s: nat, f: int)
    requires
        0 <= f < 1000,
    ensures
        seconds_text(1000 * s + f) == decimal(s) + (seq!['.'] + decimals(f)),
{
    let n = 1000 * s + f;
    assert(n / 1000 == s && n % 1000 == f);
    assert(Seq::<char>::empty() + decimal(s) =~= decimal(s));
}

proof fn lemma_hundredths(a: nat, b: nat)
    requires
        a < 10,
        0 < b < 10,
    ensures
        decimals((100 * a + 10 * b) as int) == decimal(a) + decimal(b),
{
    let f = (100 * a + 10 * b) as int;
    assert(f % 100 == 10 * b && f % 10 == 0 && f / 100 == a && f / 10 % 10 == b);
    assert(decimals(f) =~= decimal(a) + decimal(b));
}

proof fn lemma_thousandths(a: nat, b: nat, c: nat)
    requires
        a < 10,
        b < 10,
        0 < c < 10,
    ensures
        decimals((100 * a + 10 * b + c) as int) == decimal(a) + decimal(b) + decimal(c),
{
    let f = (100 * a + 10 * b + c) as int;
    assert(f % 100 == 10 * b + c && f % 10 == c && f / 100 == a && f / 10 % 10 == b);
    assert(decimals(f) =~= decimal(a) + decimal(b) + decimal(c));
}

/// A number in hexadecimal has its width, zeros in front, and the digit of
/// least weight last, in upper case.
pub proof fn law_hex_is_positional(n: nat, d: nat, width: nat)
    requires
        d < 16,
    ensures
        hex_text(n, width).len() == width,
        hex_text(16 * n + d, width + 1) == hex_text(n, width) + hex_text(d, 1),
        d < 10 ==> hex_text(d, 1) =~= seq![('0' as u32 + d) as char],
        d >= 10 ==> hex_text(d, 1) =~= seq![('A' as u32 + d - 10) as char],
    decreases width,
{
    reveal_with_fuel(hex_text, 2);
    assert((16 * n + d) / 16 == n && (16 * n + d) % 16 == d);
    assert(d / 16 == 0 && d % 16 == d);
    assert(hex_text(16 * n + d, width + 1) =~= hex_text(n, width) + hex_text(d, 1));
    if width > 0 {
        law_hex_is_positional(n / 16, d, (width - 1) as nat);
    }
}

} // verus!
