//! Text as sequences of characters: the string operations that the
//! collector's parsers and writers are built from, each with the sequence
//! that it yields.

use vstd::prelude::*;

verus! {

// ── searching ───────────────────────────────────────────────────────────────

/// `needle` stands in `hay` at position `i`.
pub open spec fn occurs_at(hay: Seq<char>, needle: Seq<char>, i: int) -> bool {
    0 <= i && i + needle.len() <= hay.len() && hay.subrange(i, i + needle.len()) == needle
}

/// The first position at or after `from` where `needle` stands in `hay`.
pub open spec fn find_from(hay: Seq<char>, needle: Seq<char>, from: int) -> Option<int>
    decreases hay.len() - from,
{
    if from + needle.len() > hay.len() {
        None
    } else if occurs_at(hay, needle, from) {
        Some(from)
    } else if from >= hay.len() {
        None
    } else {
        find_from(hay, needle, from + 1)
    }
}

/// The first position at or after `from` that holds one of `stops`, or the
/// length of `s` if none does.
pub open spec fn stop_from(s: Seq<char>, stops: Seq<char>, from: int) -> int
    decreases s.len() - from,
{
    if from >= s.len() || stops.contains(s[from]) {
        from
    } else {
        stop_from(s, stops, from + 1)
    }
}

/// `s` up to the first of `stops`, or all of it.
pub open spec fn cut_at(s: Seq<char>, stops: Seq<char>) -> Seq<char> {
    s.take(stop_from(s, stops, 0))
}

/// The last position that holds `c`.
pub open spec fn last_position(s: Seq<char>, c: char) -> Option<int>
    decreases s.len(),
{
    if s.len() == 0 {
        None
    } else if s.last() == c {
        Some(s.len() - 1)
    } else {
        last_position(s.drop_last(), c)
    }
}

/// `s` after the last `c`, or all of it.
pub open spec fn after_last(s: Seq<char>, c: char) -> Seq<char> {
    match last_position(s, c) {
        Some(i) => s.skip(i + 1),
        None => s,
    }
}

/// `s` begins with `prefix`.
pub open spec fn has_prefix(s: Seq<char>, prefix: Seq<char>) -> bool {
    occurs_at(s, prefix, 0)
}

/// `s` without `prefix` if it begins with it, else all of it.
pub open spec fn without_prefix(s: Seq<char>, prefix: Seq<char>) -> Seq<char> {
    if has_prefix(s, prefix) {
        s.skip(prefix.len() as int)
    } else {
        s
    }
}

/// `s` from position `i` on, with every occurrence of `from` (left to right,
/// not overlapping) replaced by `to`.
pub open spec fn replaced_from(s: Seq<char>, from: Seq<char>, to: Seq<char>, i: int) -> Seq<char>
    decreases s.len() - i,
{
    if i < 0 || i >= s.len() || from.len() == 0 {
        Seq::empty()
    } else if occurs_at(s, from, i) {
        to + replaced_from(s, from, to, i + from.len())
    } else {
        seq![s[i]] + replaced_from(s, from, to, i + 1)
    }
}

/// `s` with every occurrence of `from` replaced by `to`.
pub open spec fn replaced(s: Seq<char>, from: Seq<char>, to: Seq<char>) -> Seq<char> {
    replaced_from(s, from, to, 0)
}

/// `a` comes before `b` in dictionary order, compared from position `i` on.
pub open spec fn text_before_from(a: Seq<char>, b: Seq<char>, i: int) -> bool
    decreases a.len() - i,
{
    if i >= a.len() || i >= b.len() {
        i < b.len()
    } else {
        a[i] < b[i] || (a[i] == b[i] && text_before_from(a, b, i + 1))
    }
}

/// `a` comes before `b` in dictionary order.
pub open spec fn text_before(a: Seq<char>, b: Seq<char>) -> bool {
    text_before_from(a, b, 0)
}

/// A stop position lies between where the search began and the end.
pub proof fn lemma_stop_bounds(s: Seq<char>, stops: Seq<char>, from: int)
    requires
        0 <= from <= s.len(),
    ensures
        from <= stop_from(s, stops, from) <= s.len(),
        forall|i: int| from <= i < stop_from(s, stops, from) ==> !stops.contains(#[trigger] s[i]),
        stop_from(s, stops, from) < s.len() ==> stops.contains(s[stop_from(s, stops, from)]),
    decreases s.len() - from,
{
    if from < s.len() && !stops.contains(s[from]) {
        lemma_stop_bounds(s, stops, from + 1);
    }
}

/// The last position of `c` is one that holds it.
pub proof fn lemma_last_position(s: Seq<char>, c: char)
    ensures
        last_position(s, c) matches Some(i) ==> 0 <= i < s.len() && s[i] == c,
    decreases s.len(),
{
    if s.len() > 0 {
        lemma_last_position(s.drop_last(), c);
    }
}

/// In front of what has no `c`, a `c` is the last one.
pub proof fn lemma_last_of(front: Seq<char>, c: char, tail: Seq<char>)
    requires
        !tail.contains(c),
    ensures
        last_position(front + seq![c] + tail, c) == Some(front.len() as int),
    decreases tail.len(),
{
    let s = front + seq![c] + tail;
    if tail.len() == 0 {
        assert(s.last() == c);
    } else {
        assert(s.last() == tail[tail.len() - 1]);
        assert(tail.contains(tail[tail.len() - 1]));
        let less = tail.drop_last();
        assert(s.drop_last() =~= front + seq![c] + less);
        if less.contains(c) {
            assert(tail[less.index_of(c)] == c);
        }
        lemma_last_of(front, c, less);
    }
}

/// Where there is no `c`, there is no last one.
pub proof fn lemma_no_last(s: Seq<char>, c: char)
    requires
        !s.contains(c),
    ensures
        last_position(s, c) is None,
{
    lemma_last_position(s, c);
    if let Some(i) = last_position(s, c) {
        assert(s[i] == c);
    }
}

/// A needle is found where it first stands.
pub proof fn lemma_first_at(s: Seq<char>, needle: Seq<char>, from: int, at: int)
    requires
        0 <= from <= at,
        occurs_at(s, needle, at),
        forall|i: int| from <= i < at ==> !#[trigger] occurs_at(s, needle, i),
    ensures
        find_from(s, needle, from) == Some(at),
    decreases at - from,
{
    if from < at {
        assert(!occurs_at(s, needle, from));
        lemma_first_at(s, needle, from + 1, at);
    }
}

/// A needle that stands nowhere is not found.
pub proof fn lemma_nowhere(s: Seq<char>, needle: Seq<char>, from: int)
    requires
        0 <= from,
        forall|i: int| from <= i ==> !#[trigger] occurs_at(s, needle, i),
    ensures
        find_from(s, needle, from) is None,
    decreases s.len() - from,
{
    assert(!occurs_at(s, needle, from));
    if from < s.len() {
        lemma_nowhere(s, needle, from + 1);
    }
}

/// A text is cut at the first of the stops, which is where `rest` begins.
pub proof fn lemma_cut(a: Seq<char>, rest: Seq<char>, stops: Seq<char>)
    requires
        forall|i: int| 0 <= i < a.len() ==> !stops.contains(#[trigger] a[i]),
        rest.len() == 0 || stops.contains(rest[0]),
    ensures
        cut_at(a + rest, stops) == a,
{
    lemma_stop_at_rest(a, rest, stops, 0);
    assert((a + rest).take(a.len() as int) =~= a);
}

pub proof fn lemma_stop_at_rest(a: Seq<char>, rest: Seq<char>, stops: Seq<char>, from: int)
    requires
        0 <= from <= a.len(),
        forall|i: int| 0 <= i < a.len() ==> !stops.contains(#[trigger] a[i]),
        rest.len() == 0 || stops.contains(rest[0]),
    ensures
        stop_from(a + rest, stops, from) == a.len(),
    decreases a.len() - from,
{
    let s = a + rest;
    if from < a.len() {
        assert(s[from] == a[from]);
        lemma_stop_at_rest(a, rest, stops, from + 1);
    } else if rest.len() > 0 {
        assert(s[from] == rest[0]);
    }
}

/// Dictionary order is transitive.
pub proof fn lemma_before_transitive(a: Seq<char>, b: Seq<char>, c: Seq<char>, i: int)
    requires
        0 <= i,
        text_before_from(a, b, i),
        text_before_from(b, c, i),
    ensures
        text_before_from(a, c, i),
    decreases a.len() - i,
{
    if i < a.len() && i < b.len() && i < c.len() && a[i] == b[i] && b[i] == c[i] {
        lemma_before_transitive(a, b, c, i + 1);
    }
}

/// Of two different texts one comes before the other.
pub proof fn lemma_before_total(a: Seq<char>, b: Seq<char>, i: int)
    requires
        0 <= i <= a.len(),
        i <= b.len(),
        a.take(i) == b.take(i),
        a != b,
    ensures
        text_before_from(a, b, i) || text_before_from(b, a, i),
    decreases a.len() - i,
{
    if i >= a.len() && i >= b.len() {
        assert(a.take(i) =~= a);
        assert(b.take(i) =~= b);
    } else if i < a.len() && i < b.len() && a[i] == b[i] {
        assert(a.take(i + 1) =~= a.take(i).push(a[i]));
        assert(b.take(i + 1) =~= b.take(i).push(b[i]));
        lemma_before_total(a, b, i + 1);
    }
}

/// No text comes before itself.
pub proof fn lemma_before_irreflexive(a: Seq<char>, i: int)
    ensures
        !text_before_from(a, a, i),
    decreases a.len() - i,
{
    if i < a.len() {
        lemma_before_irreflexive(a, i + 1);
    }
}

// ── characters ──────────────────────────────────────────────────────────────

pub open spec fn is_digit_char(c: char) -> bool {
    '0' <= c <= '9'
}

pub open spec fn is_alphanumeric_char(c: char) -> bool {
    is_digit_char(c) || 'a' <= c <= 'z' || 'A' <= c <= 'Z'
}

/// The characters with the Unicode property `White_Space`.
pub open spec fn is_space_char(c: char) -> bool {
    let n = c as u32;
    ||| 0x9 <= n <= 0xd
    ||| n == 0x20
    ||| n == 0x85
    ||| n == 0xa0
    ||| n == 0x1680
    ||| 0x2000 <= n <= 0x200a
    ||| n == 0x2028
    ||| n == 0x2029
    ||| n == 0x202f
    ||| n == 0x205f
    ||| n == 0x3000
}

pub open spec fn is_ascii_char(c: char) -> bool {
    (c as u32) < 0x80
}

/// The ASCII lower-case form of an ASCII character.
pub open spec fn ascii_lower(c: char) -> char {
    if 'A' <= c <= 'Z' {
        (c as u32 + 32) as char
    } else {
        c
    }
}

/// The first position at or after `from` that does not hold white space.
pub open spec fn space_end(s: Seq<char>, from: int) -> int
    decreases s.len() - from,
{
    if from >= s.len() || !is_space_char(s[from]) {
        from
    } else {
        space_end(s, from + 1)
    }
}

/// `s` without the white space at its end.
pub open spec fn trimmed_end(s: Seq<char>) -> Seq<char>
    decreases s.len(),
{
    if s.len() == 0 || !is_space_char(s.last()) {
        s
    } else {
        trimmed_end(s.drop_last())
    }
}

/// `s` without the white space at both ends.
pub open spec fn trimmed(s: Seq<char>) -> Seq<char> {
    trimmed_end(s.skip(space_end(s, 0)))
}

// ── executable forms ────────────────────────────────────────────────────────

/// `String::push` appends one character.
pub assume_specification[ String::push ](s: &mut String, c: char)
    ensures
        final(s)@ == old(s)@.push(c),
;

/// What `str::to_lowercase` makes of `s`.
pub uninterp spec fn lowercase_text(s: Seq<char>) -> Seq<char>;

/// `str::to_lowercase`. Of ASCII text it changes the letters `A` to `Z` and
/// nothing else.
#[verifier::external_body]
pub(crate) fn lowercase(s: &str) -> (r: String)
    ensures
        r@ == lowercase_text(s@),
        (forall|i: int| 0 <= i < s@.len() ==> is_ascii_char(#[trigger] s@[i])) ==> r@ =~= Seq::new(
            s@.len(),
            |i: int| ascii_lower(s@[i]),
        ),
{
    s.to_lowercase()
}

/// The characters of `s`, in order.
pub fn chars_of(s: &str) -> (v: Vec<char>)
    ensures
        v@ == s@,
{
    let mut v: Vec<char> = Vec::new();
    for c in it: s.chars()
        invariant
            it.seq() == s@,
            v@ == s@.take(it.index() as int),
    {
        v.push(c);
        assert(s@.take(it.index() as int).push(c) =~= s@.take(it.index() + 1));
    }
    assert(s@.take(s@.len() as int) =~= s@);
    v
}

/// The text of `v[from..to]`.
pub fn text_of(v: &Vec<char>, from: usize, to: usize) -> (s: String)
    requires
        from <= to <= v@.len(),
    ensures
        s@ == v@.subrange(from as int, to as int),
{
    let mut s = String::new();
    let mut i: usize = from;
    while i < to
        invariant
            from <= i <= to <= v@.len(),
            s@ == v@.subrange(from as int, i as int),
        decreases to - i,
    {
        s.push(v[i]);
        i = i + 1;
        assert(v@.subrange(from as int, i - 1).push(v@[i - 1]) =~= v@.subrange(
            from as int,
            i as int,
        ));
    }
    s
}

/// A fresh `String` with the text of `s`.
pub fn owned(s: &str) -> (r: String)
    ensures
        r@ == s@,
{
    s.to_owned()
}

/// `a` and `b` hold the same text.
pub fn same_text(a: &str, b: &str) -> (r: bool)
    ensures
        r == (a@ == b@),
{
    let x: String = a.to_owned();
    let y: String = b.to_owned();
    x == y
}

/// Does `needle` stand in `hay` at position `i`?
pub fn stands_at(hay: &Vec<char>, needle: &Vec<char>, i: usize) -> (r: bool)
    requires
        i <= hay@.len(),
    ensures
        r == occurs_at(hay@, needle@, i as int),
{
    let len: usize = hay.len();
    if needle.len() > len - i {
        return false;
    }
    let mut k: usize = 0;
    while k < needle.len()
        invariant
            k <= needle@.len(),
            i + needle@.len() <= hay@.len(),
            len == hay@.len(),
            forall|j: int| 0 <= j < k ==> hay@[i + j] == needle@[j],
        decreases needle@.len() - k,
    {
        if hay[i + k] != needle[k] {
            assert(hay@.subrange(i as int, i + needle@.len())[k as int] != needle@[k as int]);
            return false;
        }
        k = k + 1;
    }
    assert(hay@.subrange(i as int, i + needle@.len()) =~= needle@);
    true
}

/// The first position at or after `from` where `needle` stands in `hay`.
pub fn find(hay: &Vec<char>, needle: &str, from: usize) -> (r: Option<usize>)
    requires
        from <= hay@.len(),
    ensures
        match r {
            Some(i) => find_from(hay@, needle@, from as int) == Some(i as int) && from <= i && i
                + needle@.len() <= hay@.len(),
            None => find_from(hay@, needle@, from as int) is None,
        },
{
    let needle_chars = chars_of(needle);
    let mut i: usize = from;
    loop
        invariant
            from <= i <= hay@.len(),
            needle_chars@ == needle@,
            find_from(hay@, needle@, from as int) == find_from(hay@, needle@, i as int),
        decreases hay@.len() - i,
    {
        if stands_at(hay, &needle_chars, i) {
            return Some(i);
        }
        if i >= hay.len() {
            return None;
        }
        i = i + 1;
    }
}

/// The first position at or after `from` that holds one of `stops`, or the
/// length of `v`.
pub fn stop_at(v: &Vec<char>, stops: &Vec<char>, from: usize) -> (r: usize)
    requires
        from <= v@.len(),
    ensures
        r == stop_from(v@, stops@, from as int),
        from <= r <= v@.len(),
{
    let mut i: usize = from;
    while i < v.len()
        invariant
            from <= i <= v@.len(),
            stop_from(v@, stops@, from as int) == stop_from(v@, stops@, i as int),
        decreases v@.len() - i,
    {
        if holds(stops, v[i]) {
            return i;
        }
        i = i + 1;
    }
    i
}

/// Does `v` hold `c`?
pub fn holds(v: &Vec<char>, c: char) -> (r: bool)
    ensures
        r == v@.contains(c),
{
    let mut i: usize = 0;
    while i < v.len()
        invariant
            i <= v@.len(),
            forall|j: int| 0 <= j < i ==> v@[j] != c,
        decreases v@.len() - i,
    {
        if v[i] == c {
            assert(v@[i as int] == c);
            return true;
        }
        i = i + 1;
    }
    false
}

/// The last position before `end` that holds `c`.
pub fn last_before(v: &Vec<char>, end: usize, c: char) -> (r: Option<usize>)
    requires
        end <= v@.len(),
    ensures
        match r {
            Some(i) => last_position(v@.take(end as int), c) == Some(i as int) && i < end,
            None => last_position(v@.take(end as int), c) is None,
        },
{
    let mut i: usize = end;
    while i > 0
        invariant
            i <= end <= v@.len(),
            last_position(v@.take(end as int), c) == last_position(v@.take(i as int), c),
        decreases i,
    {
        assert(v@.take(i as int).last() == v@[i - 1]);
        assert(v@.take(i as int).drop_last() =~= v@.take(i - 1));
        if v[i - 1] == c {
            return Some(i - 1);
        }
        i = i - 1;
    }
    None
}

/// `s` up to the first of `stops`, or all of it.
pub fn before_any(s: &str, stops: Vec<char>) -> (r: String)
    ensures
        r@ == cut_at(s@, stops@),
{
    let v = chars_of(s);
    let end: usize = stop_at(&v, &stops, 0);
    assert(v@.subrange(0, end as int) =~= v@.take(end as int));
    text_of(&v, 0, end)
}

/// `s` after the last `c`, or all of it.
pub fn past_last(s: &str, c: char) -> (r: String)
    ensures
        r@ == after_last(s@, c),
{
    let v = chars_of(s);
    assert(v@.take(v@.len() as int) =~= v@);
    match last_before(&v, v.len(), c) {
        Some(i) => {
            assert(v@.subrange(i + 1, v@.len() as int) =~= v@.skip(i + 1));
            text_of(&v, i + 1, v.len())
        },
        None => owned(s),
    }
}

/// `s` without `prefix` if it begins with it, else all of it.
pub fn strip_prefix(s: &str, prefix: &str) -> (r: String)
    ensures
        r@ == without_prefix(s@, prefix@),
{
    let v = chars_of(s);
    let p = chars_of(prefix);
    if stands_at(&v, &p, 0) {
        assert(v@.subrange(p@.len() as int, v@.len() as int) =~= v@.skip(p@.len() as int));
        text_of(&v, p.len(), v.len())
    } else {
        owned(s)
    }
}

/// Does `s` begin with `prefix`?
pub fn begins_with(s: &str, prefix: &str) -> (r: bool)
    ensures
        r == has_prefix(s@, prefix@),
{
    let v = chars_of(s);
    let p = chars_of(prefix);
    stands_at(&v, &p, 0)
}

/// Does `a` come before `b` in dictionary order?
pub fn comes_before(a: &str, b: &str) -> (r: bool)
    ensures
        r == text_before(a@, b@),
{
    let x = chars_of(a);
    let y = chars_of(b);
    let mut i: usize = 0;
    while i < x.len() && i < y.len()
        invariant
            i <= x@.len(),
            i <= y@.len(),
            x@ == a@,
            y@ == b@,
            text_before(x@, y@) == text_before_from(x@, y@, i as int),
        decreases x@.len() - i,
    {
        if x[i] != y[i] {
            return x[i] < y[i];
        }
        i = i + 1;
    }
    i < y.len()
}

/// `s` with every occurrence of `from` replaced by `to`.
pub fn replace(s: &str, from: &str, to: &str) -> (r: String)
    requires
        from@.len() > 0,
    ensures
        r@ == replaced(s@, from@, to@),
{
    let v = chars_of(s);
    let f = chars_of(from);
    let mut out = String::new();
    let mut i: usize = 0;
    while i < v.len()
        invariant
            i <= v@.len(),
            v@ == s@,
            f@ == from@,
            from@.len() > 0,
            replaced(s@, from@, to@) == out@ + replaced_from(s@, from@, to@, i as int),
        decreases v@.len() - i,
    {
        let ghost before = out@;
        if stands_at(&v, &f, i) {
            out.append(to);
            assert(before + (to@ + replaced_from(s@, from@, to@, i + from@.len())) =~= before + to@
                + replaced_from(s@, from@, to@, i + from@.len()));
            i = i + f.len();
        } else {
            out.push(v[i]);
            assert(before + (seq![v@[i as int]] + replaced_from(s@, from@, to@, i + 1))
                =~= before.push(v@[i as int]) + replaced_from(s@, from@, to@, i + 1));
            i = i + 1;
        }
    }
    assert(out@ + Seq::<char>::empty() =~= out@);
    out
}

pub fn is_space(c: char) -> (r: bool)
    ensures
        r == is_space_char(c),
{
    let n: u32 = c as u32;
    (n >= 0x9 && n <= 0xd) || n == 0x20 || n == 0x85 || n == 0xa0 || n == 0x1680 || (n >= 0x2000
        && n <= 0x200a) || n == 0x2028 || n == 0x2029 || n == 0x202f || n == 0x205f || n == 0x3000
}

pub fn is_digit(c: char) -> (r: bool)
    ensures
        r == is_digit_char(c),
{
    c >= '0' && c <= '9'
}

pub fn is_alphanumeric(c: char) -> (r: bool)
    ensures
        r == is_alphanumeric_char(c),
{
    is_digit(c) || (c >= 'a' && c <= 'z') || (c >= 'A' && c <= 'Z')
}

/// `s` without the white space at both ends.
pub fn trim(s: &str) -> (r: String)
    ensures
        r@ == trimmed(s@),
{
    let v = chars_of(s);
    let mut i: usize = 0;
    while i < v.len() && is_space(v[i])
        invariant
            i <= v@.len(),
            space_end(v@, 0) == space_end(v@, i as int),
        decreases v@.len() - i,
    {
        i = i + 1;
    }
    let mut j: usize = v.len();
    assert(v@.subrange(i as int, v@.len() as int) =~= v@.skip(i as int));
    while j > i && is_space(v[j - 1])
        invariant
            i <= j <= v@.len(),
            trimmed_end(v@.skip(i as int)) == trimmed_end(v@.subrange(i as int, j as int)),
        decreases j,
    {
        assert(v@.subrange(i as int, j as int).last() == v@[j - 1]);
        assert(v@.subrange(i as int, j as int).drop_last() =~= v@.subrange(i as int, j - 1));
        j = j - 1;
    }
    assert(j > i ==> v@.subrange(i as int, j as int).last() == v@[j - 1]);
    text_of(&v, i, j)
}

// ── laws ────────────────────────────────────────────────────────────────────

/// Nothing but white space.
pub open spec fn all_space(s: Seq<char>) -> bool {
    forall|i: int| 0 <= i < s.len() ==> is_space_char(#[trigger] s[i])
}

/// Trimming takes the white space off both ends and leaves all that stands
/// between.
pub proof fn law_trimming_leaves_the_middle(a: Seq<char>, m: Seq<char>, b: Seq<char>)
    requires
        all_space(a),
        all_space(b),
        m.len() == 0 || (!is_space_char(m[0]) && !is_space_char(m.last())),
    ensures
        trimmed(a + m + b) == m,
{
    let s = a + m + b;
    if m.len() == 0 {
        assert(s =~= a + b);
        assert(all_space(s));
        lemma_space_end(s, Seq::empty(), 0);
        assert(s + Seq::<char>::empty() =~= s);
        assert(s.skip(s.len() as int) =~= m);
    } else {
        assert(s =~= a + (m + b));
        lemma_space_end(a, m + b, 0);
        assert(s.skip(a.len() as int) =~= m + b);
        lemma_trimmed_end(m, b);
    }
}

proof fn lemma_space_end(a: Seq<char>, rest: Seq<char>, from: int)
    requires
        all_space(a),
        0 <= from <= a.len(),
        rest.len() == 0 || !is_space_char(rest[0]),
    ensures
        space_end(a + rest, from) == a.len(),
    decreases a.len() - from,
{
    let s = a + rest;
    if from < a.len() {
        assert(s[from] == a[from]);
        lemma_space_end(a, rest, from + 1);
    } else if rest.len() > 0 {
        assert(s[from] == rest[0]);
    }
}

proof fn lemma_trimmed_end(m: Seq<char>, b: Seq<char>)
    requires
        m.len() > 0 && !is_space_char(m.last()),
        all_space(b),
    ensures
        trimmed_end(m + b) == m,
    decreases b.len(),
{
    let s = m + b;
    if b.len() == 0 {
        assert(s =~= m);
    } else {
        assert(s.last() == b[b.len() - 1]);
        assert(s.drop_last() =~= m + b.drop_last());
        lemma_trimmed_end(m, b.drop_last());
    }
}

/// White space is the blank, the five control characters from the tab to the
/// carriage return, and nothing else in ASCII; beyond it the next line, the
/// spaces that do not break, those of all widths, the line and paragraph
/// separators and the ideographic space.
pub proof fn law_white_space(c: char)
    ensures
        (c as u32) < 0x80 ==> is_space_char(c) == (c == ' ' || c == '\t' || c == '\n' || c == '\r'
            || c as u32 == 11 || c as u32 == 12),
        (c as u32) >= 0x80 ==> is_space_char(c) == (c == '\u{85}' || c == '\u{a0}' || c
            == '\u{1680}' || ('\u{2000}' <= c && c <= '\u{200a}') || c == '\u{2028}' || c
            == '\u{2029}' || c == '\u{202f}' || c == '\u{205f}' || c == '\u{3000}'),
{
}

/// Replacing replaces one occurrence after the other, from the front, and
/// leaves all else: of a text that begins with `plain`, which holds no
/// beginning of `from`, and goes on with `from`.
pub proof fn law_replacing_goes_from_the_front(
    plain: Seq<char>,
    from: Seq<char>,
    to: Seq<char>,
    rest: Seq<char>,
)
    requires
        from.len() > 0,
        forall|i: int|
            0 <= i < plain.len() ==> !#[trigger] occurs_at(plain + from + rest, from, i),
    ensures
        replaced(plain + from + rest, from, to) == plain + to + replaced(rest, from, to),
{
    let s = plain + from + rest;
    let n = plain.len() as int;
    assert(s.subrange(n, n + from.len()) =~= from);
    let head = plain + from;
    assert(s =~= head + rest);
    lemma_replaced_behind(head, rest, from, to, 0);
    assert(s.take(n) =~= plain);
    lemma_replaced_front(s, from, to, plain, 0);
    assert(plain + (to + replaced(rest, from, to)) =~= plain + to + replaced(rest, from, to));
    assert(plain.skip(0) =~= plain);
}

proof fn lemma_replaced_front(
    s: Seq<char>,
    from: Seq<char>,
    to: Seq<char>,
    plain: Seq<char>,
    i: int,
)
    requires
        from.len() > 0,
        0 <= i <= plain.len(),
        plain.len() <= s.len(),
        s.take(plain.len() as int) == plain,
        occurs_at(s, from, plain.len() as int),
        forall|k: int| 0 <= k < plain.len() ==> !#[trigger] occurs_at(s, from, k),
    ensures
        replaced_from(s, from, to, i) == plain.skip(i) + (to + replaced_from(
            s,
            from,
            to,
            (plain.len() + from.len()) as int,
        )),
    decreases plain.len() - i,
{
    if i < plain.len() {
        assert(!occurs_at(s, from, i));
        lemma_replaced_front(s, from, to, plain, i + 1);
        assert(s[i] == s.take(plain.len() as int)[i]);
        let rest = to + replaced_from(s, from, to, (plain.len() + from.len()) as int);
        assert(seq![s[i]] + (plain.skip(i + 1) + rest) =~= plain.skip(i) + rest);
    } else {
        let rest = to + replaced_from(s, from, to, (plain.len() + from.len()) as int);
        assert(plain.skip(i) + rest =~= rest);
    }
}

proof fn lemma_replaced_behind(
    head: Seq<char>,
    rest: Seq<char>,
    from: Seq<char>,
    to: Seq<char>,
    i: int,
)
    requires
        from.len() > 0,
        0 <= i,
    ensures
        replaced_from(head + rest, from, to, head.len() + i) == replaced_from(rest, from, to, i),
    decreases rest.len() - i,
{
    let s = head + rest;
    if i < rest.len() {
        assert(occurs_at(s, from, head.len() + i) == occurs_at(rest, from, i)) by {
            if i + from.len() <= rest.len() {
                assert(s.subrange(head.len() + i, head.len() + i + from.len()) =~= rest.subrange(
                    i,
                    i + from.len(),
                ));
            }
        }
        if occurs_at(rest, from, i) {
            lemma_replaced_behind(head, rest, from, to, i + from.len());
        } else {
            lemma_replaced_behind(head, rest, from, to, i + 1);
        }
    }
}

/// Dictionary order goes by the first place where two texts differ. A text
/// comes before one that goes on behind it, and not before itself.
pub proof fn law_dictionary_order(
    a: Seq<char>,
    x: char,
    p: Seq<char>,
    y: char,
    q: Seq<char>,
)
    ensures
        x != y ==> text_before(a + seq![x] + p, a + seq![y] + q) == (x < y),
        text_before(a, a + seq![y] + q),
        !text_before(a + seq![y] + q, a),
        !text_before(a, a),
{
    lemma_common_front(a, seq![x] + p, seq![y] + q, 0);
    assert(a + (seq![x] + p) =~= a + seq![x] + p);
    assert(a + (seq![y] + q) =~= a + seq![y] + q);
    lemma_common_front(a, Seq::empty(), seq![y] + q, 0);
    lemma_common_front(a, seq![y] + q, Seq::empty(), 0);
    lemma_common_front(a, Seq::empty(), Seq::empty(), 0);
    assert(a + Seq::<char>::empty() =~= a);
}

/// What two texts have in common at the front has no part in their order.
proof fn lemma_common_front(a: Seq<char>, b: Seq<char>, c: Seq<char>, i: int)
    requires
        0 <= i <= a.len(),
    ensures
        b.len() > 0 && c.len() > 0 && b[0] != c[0] ==> text_before_from(a + b, a + c, i) == (b[0]
            < c[0]),
        b.len() == 0 || c.len() == 0 ==> text_before_from(a + b, a + c, i) == (c.len() > 0),
    decreases a.len() - i,
{
    if i < a.len() {
        assert((a + b)[i] == a[i] && (a + c)[i] == a[i]);
        lemma_common_front(a, b, c, i + 1);
    } else if b.len() > 0 && c.len() > 0 {
        assert((a + b)[i] == b[0] && (a + c)[i] == c[0]);
    }
}

/// Which characters are digits, letters and digits, and how a letter is lowered.
pub proof fn law_letters_and_digits(c: char)
    ensures
        is_digit_char(c) <==> 0x30 <= c as u32 <= 0x39,
        is_alphanumeric_char(c) <==> 0x30 <= c as u32 <= 0x39 || 0x41 <= c as u32 <= 0x5a || 0x61
            <= c as u32 <= 0x7a,
        0x41 <= c as u32 <= 0x5a ==> ascii_lower(c) as u32 == c as u32 + 32,
        !(0x41 <= c as u32 <= 0x5a) ==> ascii_lower(c) == c,
        is_ascii_char(c) <==> c as u32 <= 0x7f,
{
}

} // verus!
