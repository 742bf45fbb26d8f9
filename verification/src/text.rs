use vstd::prelude::*;

verus! {

broadcast use vstd::string::group_string_axioms;

// ---------------------------------------------------------------------------
// Ordering of names
// ---------------------------------------------------------------------------

/// Lexicographic order on character sequences, characters compared by code
/// point. Since UTF-8 preserves code-point order, this is the byte-wise order
/// in which `str` compares.
pub open spec fn seq_lt(a: Seq<char>, b: Seq<char>) -> bool
    decreases a.len(),
{
    if a.len() == 0 {
        b.len() > 0
    } else if b.len() == 0 {
        false
    } else if (a[0] as u32) < (b[0] as u32) {
        true
    } else if a[0] == b[0] {
        seq_lt(a.drop_first(), b.drop_first())
    } else {
        false
    }
}

/// No sequence comes before itself.
pub proof fn lemma_seq_lt_irreflexive(a: Seq<char>)
    ensures
        !seq_lt(a, a),
    decreases a.len(),
{
    if a.len() > 0 {
        lemma_seq_lt_irreflexive(a.drop_first());
    }
}

/// The order is transitive.
pub proof fn lemma_seq_lt_transitive(a: Seq<char>, b: Seq<char>, c: Seq<char>)
    requires
        seq_lt(a, b),
        seq_lt(b, c),
    ensures
        seq_lt(a, c),
    decreases a.len(),
{
    if a.len() > 0 && b.len() > 0 && c.len() > 0 && a[0] == b[0] && b[0] == c[0] {
        lemma_seq_lt_transitive(a.drop_first(), b.drop_first(), c.drop_first());
    }
}

/// Two different sequences are ordered one way or the other.
pub proof fn lemma_seq_lt_total(a: Seq<char>, b: Seq<char>)
    requires
        a != b,
    ensures
        seq_lt(a, b) || seq_lt(b, a),
    decreases a.len(),
{
    if a.len() == 0 {
        assert(b.len() > 0) by {
            if b.len() == 0 {
                assert(a =~= b);
            }
        }
    } else if b.len() > 0 && a[0] == b[0] {
        if a.drop_first() == b.drop_first() {
            assert(a =~= seq![a[0]] + a.drop_first());
            assert(b =~= seq![b[0]] + b.drop_first());
        }
        lemma_seq_lt_total(a.drop_first(), b.drop_first());
    } else if b.len() > 0 {
        let u = a[0] as u32;
        if u == (b[0] as u32) {
            vstd::utf8::char_u32_cast(a[0], u);
            vstd::utf8::char_u32_cast(b[0], u);
        }
    }
}

/// A proper prefix comes before the longer sequence, and never after it.
pub proof fn lemma_seq_lt_prefix(a: Seq<char>, b: Seq<char>)
    requires
        b.len() > 0,
    ensures
        seq_lt(a, a + b),
        !seq_lt(a + b, a),
    decreases a.len(),
{
    if a.len() > 0 {
        assert((a + b).drop_first() =~= a.drop_first() + b);
        assert((a + b)[0] == a[0]);
        lemma_seq_lt_prefix(a.drop_first(), b);
    } else {
        assert(a + b =~= b);
    }
}

/// Sequences that agree up to position `k` and differ there are ordered by
/// the code points at `k`.
pub proof fn lemma_seq_lt_first_difference(a: Seq<char>, b: Seq<char>, k: int)
    requires
        0 <= k < a.len(),
        k < b.len(),
        a.take(k) == b.take(k),
        (a[k] as u32) < (b[k] as u32),
    ensures
        seq_lt(a, b),
        !seq_lt(b, a),
    decreases k,
{
    if k > 0 {
        assert(a[0] == a.take(k)[0]);
        assert(b[0] == b.take(k)[0]);
        assert(a.drop_first().take(k - 1) =~= b.drop_first().take(k - 1)) by {
            assert forall|i: int| 0 <= i < k - 1 implies #[trigger] a.drop_first().take(k - 1)[i]
                == b.drop_first().take(k - 1)[i] by {
                assert(a.drop_first().take(k - 1)[i] == a[i + 1]);
                assert(b.drop_first().take(k - 1)[i] == b[i + 1]);
                assert(a.take(k)[i + 1] == a[i + 1]);
                assert(b.take(k)[i + 1] == b[i + 1]);
                assert(a.take(k)[i + 1] == b.take(k)[i + 1]);
            }
        }
        lemma_seq_lt_first_difference(a.drop_first(), b.drop_first(), k - 1);
    }
}

/// Whether `a` comes before `b`, as `str` orders them.
pub fn chars_lt(a: &Vec<char>, b: &Vec<char>) -> (res: bool)
    ensures
        res == seq_lt(a@, b@),
{
    let mut i: usize = 0;
    assert(a@.skip(0) =~= a@);
    assert(b@.skip(0) =~= b@);
    while i < a.len() && i < b.len()
        invariant
            i <= a.len(),
            i <= b.len(),
            seq_lt(a@, b@) == seq_lt(a@.skip(i as int), b@.skip(i as int)),
        decreases a.len() - i,
    {
        let x = a[i];
        let y = b[i];
        if (x as u32) < (y as u32) {
            return true;
        }
        if x != y {
            return false;
        }
        assert(a@.skip(i as int).drop_first() =~= a@.skip(i + 1));
        assert(b@.skip(i as int).drop_first() =~= b@.skip(i + 1));
        i = i + 1;
    }
    i < b.len()
}

/// Whether two character vectors hold the same characters.
pub fn chars_eq(a: &Vec<char>, b: &Vec<char>) -> (res: bool)
    ensures
        res == (a@ == b@),
{
    if a.len() != b.len() {
        return false;
    }
    let mut i: usize = 0;
    while i < a.len()
        invariant
            i <= a.len(),
            a.len() == b.len(),
            forall|j: int| 0 <= j < i ==> a@[j] == b@[j],
        decreases a.len() - i,
    {
        if a[i] != b[i] {
            return false;
        }
        i = i + 1;
    }
    assert(a@ =~= b@);
    true
}

// ---------------------------------------------------------------------------
// Characters of a string
// ---------------------------------------------------------------------------

/// The characters of `s`, in order.
pub fn chars_of(s: &str) -> (res: Vec<char>)
    ensures
        res@ == s@,
{
    let mut res: Vec<char> = Vec::new();
    for c in it: s.chars()
        invariant
            res@ == it.seq().take(it.index() as int),
    {
        res.push(c);
    }
    res
}

// ---------------------------------------------------------------------------
// Substrings
// ---------------------------------------------------------------------------

/// `needle` occurs in `hay` at position `i`.
pub open spec fn occurs_at(hay: Seq<char>, needle: Seq<char>, i: int) -> bool {
    0 <= i && i + needle.len() <= hay.len() && hay.subrange(i, i + needle.len()) == needle
}

/// `needle` occurs somewhere in `hay`, as `str::contains` with a string
/// pattern decides (the empty needle occurs in every string).
pub open spec fn seq_contains(hay: Seq<char>, needle: Seq<char>) -> bool {
    exists|i: int| occurs_at(hay, needle, i)
}

/// Occurrence is transitive: what occurs in something that occurs in `hay`
/// occurs in `hay`.
pub proof fn lemma_contains_transitive(hay: Seq<char>, mid: Seq<char>, needle: Seq<char>)
    requires
        seq_contains(hay, mid),
        seq_contains(mid, needle),
    ensures
        seq_contains(hay, needle),
{
    let i = choose|i: int| occurs_at(hay, mid, i);
    let j = choose|j: int| occurs_at(mid, needle, j);
    assert(hay.subrange(i + j, i + j + needle.len()) =~= needle) by {
        assert forall|k: int| 0 <= k < needle.len() implies hay.subrange(
            i + j,
            i + j + needle.len(),
        )[k] == needle[k] by {
            assert(mid.subrange(j, j + needle.len())[k] == needle[k]);
            assert(hay.subrange(i, i + mid.len())[j + k] == mid[j + k]);
        }
    }
    assert(occurs_at(hay, needle, i + j));
}

/// The empty needle occurs everywhere, and a needle occurs in any sequence
/// that has it in the middle.
pub proof fn lemma_contains_middle(a: Seq<char>, needle: Seq<char>, b: Seq<char>)
    ensures
        seq_contains(a, Seq::<char>::empty()),
        seq_contains(a + needle + b, needle),
{
    assert(a.subrange(0, 0) =~= Seq::<char>::empty());
    assert(occurs_at(a, Seq::<char>::empty(), 0));
    assert((a + needle + b).subrange(a.len() as int, (a.len() + needle.len()) as int) =~= needle);
    assert(occurs_at(a + needle + b, needle, a.len() as int));
}

/// Only the empty sequence occurs in the empty sequence.
pub proof fn lemma_contains_in_empty(hay: Seq<char>, needle: Seq<char>)
    requires
        hay.len() == 0,
        seq_contains(hay, needle),
    ensures
        needle.len() == 0,
{
}

fn occurs_at_exec(hay: &Vec<char>, needle: &Vec<char>, i: usize) -> (res: bool)
    requires
        i + needle.len() <= hay.len(),
    ensures
        res == occurs_at(hay@, needle@, i as int),
{
    let mut j: usize = 0;
    while j < needle.len()
        invariant
            j <= needle.len(),
            i + needle.len() <= hay.len(),
            forall|k: int| 0 <= k < j ==> hay@[i + k] == needle@[k],
        decreases needle.len() - j,
    {
        if hay[i + j] != needle[j] {
            assert(hay@.subrange(i as int, i + needle.len())[j as int] != needle@[j as int]);
            return false;
        }
        j = j + 1;
    }
    assert(hay@.subrange(i as int, i + needle.len()) =~= needle@);
    true
}

/// Whether `needle` occurs in `hay`.
pub fn contains_chars(hay: &Vec<char>, needle: &Vec<char>) -> (res: bool)
    ensures
        res == seq_contains(hay@, needle@),
{
    if needle.len() > hay.len() {
        assert forall|i: int| !occurs_at(hay@, needle@, i) by {}
        return false;
    }
    if needle.len() == 0 {
        assert(hay@.subrange(0, 0) =~= needle@);
        assert(occurs_at(hay@, needle@, 0));
        return true;
    }
    let last = hay.len() - needle.len();
    let mut i: usize = 0;
    while i <= last
        invariant
            last + needle.len() == hay.len(),
            needle.len() > 0,
            forall|k: int| 0 <= k < i ==> !occurs_at(hay@, needle@, k),
        decreases last + 1 - i,
    {
        if occurs_at_exec(hay, needle, i) {
            return true;
        }
        i = i + 1;
    }
    assert forall|k: int| !occurs_at(hay@, needle@, k) by {
        if 0 <= k && k < i {
        }
    }
    false
}

// ---------------------------------------------------------------------------
// Case folding
// ---------------------------------------------------------------------------

/// What `str::to_lowercase` returns for a string with these characters: the
/// Unicode lowercase mapping, which takes tables to state.
pub uninterp spec fn lowercase(s: Seq<char>) -> Seq<char>;

/// Calls `str::to_lowercase`; its result is `lowercase` of the characters.
/// Each character maps to one or more characters (as `char::to_lowercase`
/// documents), so the result is empty exactly when the string is.
#[verifier::external_body]
pub(crate) fn to_lowercase(s: &str) -> (res: String)
    ensures
        res@ == lowercase(s@),
        res@.len() == 0 <==> s@.len() == 0,
{
    s.to_lowercase()
}

// ---------------------------------------------------------------------------
// Editing a string in place
// ---------------------------------------------------------------------------

/// Calls `String::push`, which appends one character.
#[verifier::external_body]
pub(crate) fn push_char(s: &mut String, c: char)
    ensures
        final(s)@ == old(s)@.push(c),
{
    s.push(c)
}

/// Calls `String::pop`, which removes and returns the last character, or
/// returns `None` and leaves the string as it is when it is empty.
#[verifier::external_body]
pub(crate) fn pop_char(s: &mut String) -> (res: Option<char>)
    ensures
        old(s)@.len() == 0 ==> res is None && final(s)@ == old(s)@,
        old(s)@.len() > 0 ==> res == Some(old(s)@.last()) && final(s)@ == old(s)@.drop_last(),
{
    s.pop()
}

// ---------------------------------------------------------------------------
// Decimal numbers
// ---------------------------------------------------------------------------

pub open spec fn is_ascii_digit(c: char) -> bool {
    '0' <= c && c <= '9'
}

pub open spec fn digit_value(c: char) -> nat {
    (c as nat - '0' as nat) as nat
}

/// The value of a sequence of decimal digits.
pub open spec fn decimal_value(s: Seq<char>) -> nat
    decreases s.len(),
{
    if s.len() == 0 {
        0
    } else {
        decimal_value(s.drop_last()) * 10 + digit_value(s.last())
    }
}

pub open spec fn all_ascii_digits(d: Seq<char>) -> bool {
    forall|i: int| 0 <= i < d.len() ==> is_ascii_digit(#[trigger] d[i])
}

/// The digits after an optional leading `+`.
pub open spec fn unsigned_digits(s: Seq<char>) -> Seq<char> {
    if s.len() > 0 && s[0] == '+' {
        s.drop_first()
    } else {
        s
    }
}

/// What `str::parse::<u32>` accepts: an optional `+`, then one or more ASCII
/// digits whose value fits in a `u32`; `None` for every other string.
pub open spec fn parse_u32_spec(s: Seq<char>) -> Option<u32> {
    let d = unsigned_digits(s);
    if d.len() > 0 && all_ascii_digits(d) && decimal_value(d) <= u32::MAX {
        Some(decimal_value(d) as u32)
    } else {
        None
    }
}

proof fn lemma_decimal_value_grows(s: Seq<char>, k: int)
    requires
        0 <= k <= s.len(),
    ensures
        decimal_value(s.take(k)) <= decimal_value(s),
    decreases s.len() - k,
{
    if k < s.len() {
        lemma_decimal_value_grows(s, k + 1);
        assert(s.take(k + 1).drop_last() =~= s.take(k));
    } else {
        assert(s.take(k) =~= s);
    }
}

/// Decimal parsing: a string of ASCII digits parses exactly when its value
/// fits in a `u32`, to that value, with or without a leading `+`; each further
/// digit multiplies the value by ten and adds the digit; the empty string, a
/// lone `+` and anything with another character do not parse.
pub proof fn lemma_parse_u32_digits(d: Seq<char>, c: char)
    requires
        forall|i: int| 0 <= i < d.len() ==> '0' <= #[trigger] d[i] <= '9',
    ensures
        d.len() > 0 ==> (parse_u32_spec(d) is Some <==> decimal_value(d) <= u32::MAX),
        d.len() > 0 && decimal_value(d) <= u32::MAX ==> parse_u32_spec(d) == Some(decimal_value(d) as u32),
        parse_u32_spec(seq!['+'] + d) == parse_u32_spec(d) || d.len() == 0,
        '0' <= c <= '9' ==> decimal_value(d.push(c)) == decimal_value(d) * 10 + (c as int - '0' as int),
        parse_u32_spec(Seq::<char>::empty()) is None,
        parse_u32_spec(seq!['+']) is None,
        !('0' <= c <= '9') && c != '+' ==> parse_u32_spec(seq![c] + d) is None,
        !('0' <= c <= '9') ==> parse_u32_spec(d.push(c)) is None,
{
    if d.len() > 0 {
        assert(d[0] != '+');
        assert(unsigned_digits(d) == d);
        assert((seq!['+'] + d).drop_first() =~= d);
    }
    assert(d.push(c).drop_last() =~= d);
    assert(seq!['+'].drop_first() =~= Seq::<char>::empty());
    if !('0' <= c <= '9') {
        let e = seq![c] + d;
        if c != '+' {
            assert(unsigned_digits(e) == e);
            assert(e[0] == c);
            assert(!all_ascii_digits(e));
        }
        let f = d.push(c);
        assert(f[f.len() - 1] == c);
        if f[0] == '+' {
            assert(f.len() > 1 ==> unsigned_digits(f)[f.len() - 2] == c);
            if f.len() > 1 {
                assert(!all_ascii_digits(unsigned_digits(f)));
            } else {
                assert(unsigned_digits(f).len() == 0);
            }
        } else {
            assert(unsigned_digits(f) == f);
            assert(!all_ascii_digits(f));
        }
    }
}

/// Parses a decimal `u32` as `str::parse::<u32>` does.
pub fn parse_u32(s: &str) -> (res: Option<u32>)
    ensures
        res == parse_u32_spec(s@),
{
    let cs = chars_of(s);
    let mut start: usize = 0;
    if cs.len() > 0 && cs[0] == '+' {
        start = 1;
    }
    let ghost d = unsigned_digits(s@);
    assert(d =~= cs@.skip(start as int));
    if start >= cs.len() {
        return None;
    }
    let mut acc: u64 = 0;
    let mut i: usize = start;
    while i < cs.len()
        invariant
            start <= i <= cs.len(),
            cs@ == s@,
            d == unsigned_digits(s@),
            d =~= cs@.skip(start as int),
            acc == decimal_value(d.take(i - start)),
            acc <= u32::MAX,
            forall|k: int| 0 <= k < i - start ==> is_ascii_digit(#[trigger] d[k]),
        decreases cs.len() - i,
    {
        let c = cs[i];
        let ghost n: int = i - start;
        assert(d[n] == c);
        if !('0' <= c && c <= '9') {
            assert(!is_ascii_digit(d[n]));
            assert(!all_ascii_digits(d));
            return None;
        }
        let digit: u64 = (c as u64) - ('0' as u64);
        assert(d.take(n + 1).drop_last() =~= d.take(n));
        assert(d.take(n + 1).last() == c);
        assert(decimal_value(d.take(n + 1)) == decimal_value(d.take(n)) * 10 + digit);
        acc = acc * 10 + digit;
        i = i + 1;
        if acc > 4294967295u64 {
            proof {
                lemma_decimal_value_grows(d, i - start);
            }
            return None;
        }
    }
    assert(d.take(i - start) =~= d);
    Some(acc as u32)
}

} // verus!
