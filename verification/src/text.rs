//! Text, as the rest of the library needs it: searching, cutting, trimming,
//! joining, and decimal numbers.
//!
//! Contracts speak of a text as its sequence of characters.
use vstd::prelude::*;
use vstd::utf8::{
    decode_utf8, encode_utf8, encode_utf8_decode_utf8, encode_utf8_valid_utf8, is_ascii_chars,
    valid_utf8,
};

verus! {

// ---------------------------------------------------------------------------
// Trusted: what the standard library does.
// ---------------------------------------------------------------------------
/// `String::push` appends the given character to the end of the string.
pub assume_specification[ String::push ](s: &mut String, c: char)
    ensures
        final(s)@ == old(s)@.push(c),
;

/// What `str::to_lowercase` makes of a text: Unicode's full lowercase mapping,
/// with the context rule for a final sigma.
pub uninterp spec fn lowercase(s: Seq<char>) -> Seq<char>;

/// The lowercase form of an ASCII character.
pub open spec fn ascii_lower(c: char) -> char {
    if 'A' <= c <= 'Z' {
        (c as u32 + 32) as char
    } else {
        c
    }
}

/// The lowercase form of an ASCII text.
pub open spec fn ascii_lowered(s: Seq<char>) -> Seq<char> {
    Seq::new(s.len(), |i: int| ascii_lower(s[i]))
}

/// `str::to_lowercase`. In an ASCII text the letters `A` to `Z` become `a` to `z` and
/// nothing else changes. Every character has a lowercase form of at least one
/// character, so only the empty text has an empty one.
#[verifier::external_body]
fn to_lowercase(s: &str) -> (r: String)
    ensures
        r@ == lowercase(s@),
        is_ascii_chars(s@) ==> r@ == ascii_lowered(s@),
        r@.len() == 0 <==> s@.len() == 0,
{
    s.to_lowercase()
}

/// What `String::from_utf8_lossy` makes of bytes: the text they encode, with
/// U+FFFD in place of each malformed part.
pub uninterp spec fn lossy(bytes: Seq<u8>) -> Seq<char>;

/// `String::from_utf8_lossy`. Well-formed UTF-8 comes out as the text it encodes.
#[verifier::external_body]
fn from_utf8_lossy(bytes: &Vec<u8>) -> (r: String)
    ensures
        r@ == lossy(bytes@),
        valid_utf8(bytes@) ==> r@ == decode_utf8(bytes@),
{
    String::from_utf8_lossy(bytes).into_owned()
}

/// `String::from_utf8`: the text that the bytes encode, or an error when they are
/// not well-formed UTF-8.
#[verifier::external_body]
pub(crate) fn from_utf8(bytes: Vec<u8>) -> (r: Option<String>)
    ensures
        r is Some <==> valid_utf8(bytes@),
        r is Some ==> r->0@ == decode_utf8(bytes@),
{
    String::from_utf8(bytes).ok()
}

// ---------------------------------------------------------------------------
// Characters and strings.
// ---------------------------------------------------------------------------
/// The text that bytes show as: the text they encode where they are well-formed
/// UTF-8, and otherwise what is left of it with U+FFFD in place of the malformed
/// parts.
pub open spec fn shown(bytes: Seq<u8>) -> Seq<char> {
    if valid_utf8(bytes) {
        decode_utf8(bytes)
    } else {
        lossy(bytes)
    }
}

/// The text that `bytes` show as.
pub fn show_bytes(bytes: &Vec<u8>) -> (r: String)
    ensures
        r@ == shown(bytes@),
{
    from_utf8_lossy(bytes)
}

/// The lowercase form of a text: letter by letter for ASCII, and otherwise what Unicode
/// makes of it.
pub open spec fn lowered(s: Seq<char>) -> Seq<char> {
    if is_ascii_chars(s) {
        ascii_lowered(s)
    } else {
        lowercase(s)
    }
}

/// The lowercase form of `s`; it is empty only where `s` is.
pub fn lower(s: &str) -> (r: String)
    ensures
        r@ == lowered(s@),
        r@.len() == 0 <==> s@.len() == 0,
{
    to_lowercase(s)
}

/// The characters of `s`, in order.
pub fn chars_of(s: &str) -> (r: Vec<char>)
    ensures
        r@ == s@,
{
    let mut out: Vec<char> = Vec::new();
    for c in it: s.chars()
        invariant
            out@ =~= it.seq().take(it.index()),
            it.seq() == s@,
    {
        out.push(c);
    }
    out
}

/// The characters `from..to` of `chars`, as a string.
pub fn string_of(chars: &Vec<char>, from: usize, to: usize) -> (r: String)
    requires
        from <= to <= chars@.len(),
    ensures
        r@ == chars@.subrange(from as int, to as int),
{
    let mut out = String::new();
    let mut i: usize = from;
    while i < to
        invariant
            from <= i <= to <= chars@.len(),
            out@ =~= chars@.subrange(from as int, i as int),
        decreases to - i,
    {
        out.push(chars[i]);
        i += 1;
    }
    out
}

/// Whether two texts are the same.
pub fn same_text(a: &str, b: &str) -> (r: bool)
    ensures
        r == (a@ == b@),
{
    let x = chars_of(a);
    let y = chars_of(b);
    if x.len() != y.len() {
        return false;
    }
    let mut i: usize = 0;
    while i < x.len()
        invariant
            i <= x@.len() == y@.len(),
            forall|j: int| 0 <= j < i ==> x@[j] == y@[j],
            x@ == a@,
            y@ == b@,
        decreases x@.len() - i,
    {
        if x[i] != y[i] {
            return false;
        }
        i += 1;
    }
    assert(x@ =~= y@);
    true
}

/// The first `n` characters, or all of them where there are fewer.
pub open spec fn prefix(s: Seq<char>, n: nat) -> Seq<char> {
    if s.len() <= n {
        s
    } else {
        s.take(n as int)
    }
}

/// The first `n` characters of `s`, or all of them where there are fewer.
pub fn prefix_of(s: &str, n: usize) -> (r: String)
    ensures
        r@ == prefix(s@, n as nat),
{
    let chars = chars_of(s);
    if chars.len() <= n {
        proof {
            assert(chars@.subrange(0, chars@.len() as int) =~= s@);
        }
        string_of(&chars, 0, chars.len())
    } else {
        proof {
            assert(chars@.subrange(0, n as int) =~= s@.take(n as int));
        }
        string_of(&chars, 0, n)
    }
}

// ---------------------------------------------------------------------------
// Searching.
// ---------------------------------------------------------------------------
/// Where `c` first stands in `s`; the length of `s` when it does not.
pub open spec fn first_char(s: Seq<char>, c: char) -> int
    decreases s.len(),
{
    if s.len() == 0 {
        0
    } else if s[0] == c {
        0
    } else {
        1 + first_char(s.drop_first(), c)
    }
}

/// What `first_char` gives is such a place.
pub proof fn lemma_first_char(s: Seq<char>, c: char)
    ensures
        0 <= first_char(s, c) <= s.len(),
        first_char(s, c) < s.len() ==> s[first_char(s, c)] == c,
        forall|j: int| 0 <= j < first_char(s, c) ==> s[j] != c,
    decreases s.len(),
{
    if s.len() > 0 && s[0] != c {
        let t = s.drop_first();
        lemma_first_char(t, c);
        assert forall|j: int| 0 <= j < first_char(s, c) implies s[j] != c by {
            if j > 0 {
                assert(t[j - 1] == s[j]);
            }
        }
    }
}

/// `first_char` is the only place with these properties.
pub proof fn lemma_first_char_unique(s: Seq<char>, c: char, i: int)
    requires
        0 <= i <= s.len(),
        i < s.len() ==> s[i] == c,
        forall|j: int| 0 <= j < i ==> s[j] != c,
    ensures
        first_char(s, c) == i,
{
    lemma_first_char(s, c);
    if first_char(s, c) < i {
        assert(s[first_char(s, c)] != c);
    }
}

/// Where `c` first stands in `s`; the length of `s` when it does not.
pub fn find_char(s: &Vec<char>, c: char) -> (r: usize)
    ensures
        r == first_char(s@, c),
{
    let mut i: usize = 0;
    while i < s.len() && s[i] != c
        invariant
            i <= s@.len(),
            forall|j: int| 0 <= j < i ==> s@[j] != c,
        decreases s@.len() - i,
    {
        i += 1;
    }
    proof {
        lemma_first_char_unique(s@, c, i as int);
    }
    i
}

/// The text before and after the first `c`, if there is one.
pub open spec fn cut(s: Seq<char>, c: char) -> Option<(Seq<char>, Seq<char>)> {
    let i = first_char(s, c);
    if i < s.len() {
        Some((s.take(i), s.skip(i + 1)))
    } else {
        None
    }
}

/// The text before and after the first `c` in `s`, if there is one.
pub fn cut_at(s: &str, c: char) -> (r: Option<(String, String)>)
    ensures
        match r {
            Some((before, after)) => cut(s@, c) == Some((before@, after@)),
            None => cut(s@, c) is None,
        },
{
    let chars = chars_of(s);
    let i = find_char(&chars, c);
    proof {
        lemma_first_char(chars@, c);
    }
    if i < chars.len() {
        let before = string_of(&chars, 0, i);
        let after = string_of(&chars, i + 1, chars.len());
        proof {
            assert(before@ =~= s@.take(i as int));
            assert(after@ =~= s@.skip(i + 1));
        }
        Some((before, after))
    } else {
        None
    }
}

/// Whether `pattern` stands in `s` at `i`.
pub open spec fn occurs_at(s: Seq<char>, pattern: Seq<char>, i: int) -> bool {
    &&& 0 <= i <= s.len() - pattern.len()
    &&& s.subrange(i, i + pattern.len()) == pattern
}

/// Whether `pattern` stands anywhere in `s`.
pub open spec fn contains_text(s: Seq<char>, pattern: Seq<char>) -> bool {
    exists|i: int| occurs_at(s, pattern, i)
}

/// Whether `i` is the first place where `pattern` stands in `s`.
pub open spec fn first_occurrence(s: Seq<char>, pattern: Seq<char>, i: int) -> bool {
    &&& occurs_at(s, pattern, i)
    &&& forall|j: int| 0 <= j < i ==> !occurs_at(s, pattern, j)
}

/// Whether `pattern` stands in `s` at `i`.
fn matches_at(s: &Vec<char>, pattern: &Vec<char>, i: usize) -> (r: bool)
    ensures
        r == occurs_at(s@, pattern@, i as int),
{
    let n = s.len();
    if i > n || n - i < pattern.len() {
        return false;
    }
    let mut k: usize = 0;
    while k < pattern.len()
        invariant
            k <= pattern@.len(),
            i + pattern@.len() <= n == s@.len(),
            forall|j: int| 0 <= j < k ==> s@[i + j] == pattern@[j],
        decreases pattern@.len() - k,
    {
        if s[i + k] != pattern[k] {
            proof {
                assert(s@.subrange(i as int, i + pattern@.len())[k as int] != pattern@[k as int]);
            }
            return false;
        }
        k += 1;
    }
    proof {
        assert(s@.subrange(i as int, i + pattern@.len()) =~= pattern@);
    }
    true
}

/// Where `pattern` first stands in `s`, if it does.
pub fn find_text(s: &Vec<char>, pattern: &Vec<char>) -> (r: Option<usize>)
    ensures
        match r {
            Some(i) => first_occurrence(s@, pattern@, i as int),
            None => !contains_text(s@, pattern@),
        },
{
    let mut i: usize = 0;
    while i < s.len()
        invariant
            i <= s@.len(),
            forall|j: int| 0 <= j < i ==> !occurs_at(s@, pattern@, j),
        decreases s@.len() - i,
    {
        if matches_at(s, pattern, i) {
            return Some(i);
        }
        i += 1;
    }
    if matches_at(s, pattern, i) {
        Some(i)
    } else {
        None
    }
}

/// Whether `pattern` stands anywhere in `s`.
pub fn text_contains(s: &str, pattern: &str) -> (r: bool)
    ensures
        r == contains_text(s@, pattern@),
{
    find_text(&chars_of(s), &chars_of(pattern)).is_some()
}

// ---------------------------------------------------------------------------
// Trimming.
// ---------------------------------------------------------------------------
/// Whether a character is white space: Unicode's `White_Space` property.
pub open spec fn white_space(c: char) -> bool {
    let n = c as u32;
    ||| 0x9 <= n <= 0xd
    ||| n == 0x20
    ||| n == 0x85
    ||| n == 0xa0
    ||| n == 0x1680
    ||| 0x2000 <= n <= 0x200a
    ||| n == 0x2028
    ||| n == 0x2029
    ||| n == 0x202f
    ||| n == 0x205f
    ||| n == 0x3000
}

/// Whether `c` is white space.
fn is_white_space(c: char) -> (r: bool)
    ensures
        r == white_space(c),
{
    let n: u32 = c as u32;
    (0x9 <= n && n <= 0xd) || n == 0x20 || n == 0x85 || n == 0xa0 || n == 0x1680 || (0x2000 <= n
        && n <= 0x200a) || n == 0x2028 || n == 0x2029 || n == 0x202f || n == 0x205f || n == 0x3000
}

/// `s` without the leading characters that `p` holds of.
pub open spec fn trim_start(s: Seq<char>, p: spec_fn(char) -> bool) -> Seq<char>
    decreases s.len(),
{
    if s.len() > 0 && p(s[0]) {
        trim_start(s.drop_first(), p)
    } else {
        s
    }
}

/// `s` without the trailing characters that `p` holds of.
pub open spec fn trim_end(s: Seq<char>, p: spec_fn(char) -> bool) -> Seq<char>
    decreases s.len(),
{
    if s.len() > 0 && p(s.last()) {
        trim_end(s.drop_last(), p)
    } else {
        s
    }
}

/// A run of characters that `p` holds of is what `trim_start` takes off.
proof fn lemma_trim_start(s: Seq<char>, p: spec_fn(char) -> bool, i: int)
    requires
        0 <= i <= s.len(),
        forall|j: int| 0 <= j < i ==> p(#[trigger] s[j]),
        i < s.len() ==> !p(s[i]),
    ensures
        trim_start(s, p) == s.skip(i),
    decreases i,
{
    if i == 0 {
        assert(s.skip(0) =~= s);
    } else {
        let t = s.drop_first();
        assert forall|j: int| 0 <= j < i - 1 implies p(#[trigger] t[j]) by {
            assert(t[j] == s[j + 1]);
        }
        lemma_trim_start(t, p, i - 1);
        assert(t.skip(i - 1) =~= s.skip(i));
    }
}

proof fn lemma_trim_end(s: Seq<char>, p: spec_fn(char) -> bool, i: int)
    requires
        0 <= i <= s.len(),
        forall|j: int| i <= j < s.len() ==> p(#[trigger] s[j]),
        i > 0 ==> !p(s[i - 1]),
    ensures
        trim_end(s, p) == s.take(i),
    decreases s.len() - i,
{
    if i == s.len() {
        assert(s.take(i) =~= s);
    } else {
        let t = s.drop_last();
        assert forall|j: int| i <= j < t.len() implies p(#[trigger] t[j]) by {
            assert(t[j] == s[j]);
        }
        lemma_trim_end(t, p, i);
        assert(t.take(i) =~= s.take(i));
    }
}

/// Nothing that `p` holds of is left at the start.
pub proof fn lemma_trim_start_clean(s: Seq<char>, p: spec_fn(char) -> bool)
    ensures
        trim_start(s, p).len() > 0 ==> !p(trim_start(s, p)[0]),
        trim_start(s, p).len() <= s.len(),
        trim_start(s, p) == s.skip(s.len() - trim_start(s, p).len()),
    decreases s.len(),
{
    if s.len() > 0 && p(s[0]) {
        lemma_trim_start_clean(s.drop_first(), p);
        let t = trim_start(s, p);
        assert(s.skip(s.len() - t.len()) =~= s.drop_first().skip(s.len() - 1 - t.len()));
    } else {
        assert(s.skip(0) =~= s);
    }
}

/// Nothing that `p` holds of is left at the end.
pub proof fn lemma_trim_end_clean(s: Seq<char>, p: spec_fn(char) -> bool)
    ensures
        trim_end(s, p).len() > 0 ==> !p(trim_end(s, p).last()),
        trim_end(s, p).len() <= s.len(),
        trim_end(s, p) == s.take(trim_end(s, p).len() as int),
    decreases s.len(),
{
    if s.len() > 0 && p(s.last()) {
        lemma_trim_end_clean(s.drop_last(), p);
        let t = trim_end(s, p);
        assert(s.take(t.len() as int) =~= s.drop_last().take(t.len() as int));
    } else {
        assert(s.take(s.len() as int) =~= s);
    }
}

/// `s` without leading slashes.
pub open spec fn without_slashes(s: Seq<char>) -> Seq<char> {
    trim_start(s, |c: char| c == '/')
}

/// `s` without leading slashes.
pub fn trim_slashes(s: &str) -> (r: String)
    ensures
        r@ == without_slashes(s@),
{
    let chars = chars_of(s);
    let mut i: usize = 0;
    while i < chars.len() && chars[i] == '/'
        invariant
            i <= chars@.len(),
            forall|j: int| 0 <= j < i ==> chars@[j] == '/',
        decreases chars@.len() - i,
    {
        i += 1;
    }
    proof {
        lemma_trim_start(chars@, |c: char| c == '/', i as int);
        assert(chars@.subrange(i as int, chars@.len() as int) =~= chars@.skip(i as int));
    }
    string_of(&chars, i, chars.len())
}

/// Whether `c` ends a line: a newline or a carriage return.
pub open spec fn line_end(c: char) -> bool {
    c == '\n' || c == '\r'
}

/// `s` without its trailing newlines and carriage returns.
pub open spec fn without_line_end(s: Seq<char>) -> Seq<char> {
    trim_end(s, |c: char| line_end(c))
}

/// The characters `from..to` of `chars` without trailing newlines and carriage returns.
pub fn trim_line_end(chars: &Vec<char>, from: usize, to: usize) -> (r: String)
    requires
        from <= to <= chars@.len(),
    ensures
        r@ == without_line_end(chars@.subrange(from as int, to as int)),
{
    let mut i: usize = to;
    while i > from && (chars[i - 1] == '\n' || chars[i - 1] == '\r')
        invariant
            from <= i <= to <= chars@.len(),
            forall|j: int| i <= j < to ==> line_end(#[trigger] chars@[j]),
        decreases i,
    {
        i -= 1;
    }
    proof {
        let s = chars@.subrange(from as int, to as int);
        let p = |c: char| line_end(c);
        assert forall|j: int| i - from <= j < s.len() implies p(#[trigger] s[j]) by {
            assert(s[j] == chars@[from + j]);
        }
        lemma_trim_end(s, p, i - from);
        assert(s.take(i - from) =~= chars@.subrange(from as int, i as int));
    }
    string_of(chars, from, i)
}

/// `s` without leading and trailing white space.
pub open spec fn trimmed(s: Seq<char>) -> Seq<char> {
    trim_end(trim_start(s, |c: char| white_space(c)), |c: char| white_space(c))
}

/// Trimming leaves no white space at either end, and adds nothing.
pub proof fn lemma_trimmed(s: Seq<char>)
    ensures
        trimmed(s).len() > 0 ==> !white_space(trimmed(s)[0]) && !white_space(trimmed(s).last()),
        forall|c: char| #[trigger] trimmed(s).contains(c) ==> s.contains(c),
{
    let p = |c: char| white_space(c);
    let t = trim_start(s, p);
    lemma_trim_start_clean(s, p);
    lemma_trim_end_clean(t, p);
}

/// The characters `from..to` of `chars` without leading and trailing white space.
pub fn trim_range(chars: &Vec<char>, from: usize, to: usize) -> (r: String)
    requires
        from <= to <= chars@.len(),
    ensures
        r@ == trimmed(chars@.subrange(from as int, to as int)),
{
    let ghost s = chars@.subrange(from as int, to as int);
    let ghost p = |c: char| white_space(c);
    let mut lo: usize = from;
    while lo < to && is_white_space(chars[lo])
        invariant
            from <= lo <= to <= chars@.len(),
            forall|j: int| from <= j < lo ==> white_space(#[trigger] chars@[j]),
        decreases to - lo,
    {
        lo += 1;
    }
    let ghost t = s.skip(lo - from);
    proof {
        assert forall|j: int| 0 <= j < lo - from implies p(#[trigger] s[j]) by {
            assert(s[j] == chars@[from + j]);
        }
        lemma_trim_start(s, p, lo - from);
    }
    let mut hi: usize = to;
    while hi > lo && is_white_space(chars[hi - 1])
        invariant
            lo <= hi <= to <= chars@.len(),
            forall|j: int| hi <= j < to ==> white_space(#[trigger] chars@[j]),
        decreases hi,
    {
        hi -= 1;
    }
    proof {
        assert(t =~= chars@.subrange(lo as int, to as int));
        assert forall|j: int| hi - lo <= j < t.len() implies p(#[trigger] t[j]) by {
            assert(t[j] == chars@[lo + j]);
        }
        lemma_trim_end(t, p, hi - lo);
        assert(t.take(hi - lo) =~= chars@.subrange(lo as int, hi as int));
    }
    string_of(chars, lo, hi)
}

// ---------------------------------------------------------------------------
// Joining.
// ---------------------------------------------------------------------------
/// The text of an optional string.
pub open spec fn text_view(s: Option<String>) -> Option<Seq<char>> {
    match s {
        Some(s) => Some(s@),
        None => None,
    }
}

/// The views of a sequence of strings.
pub open spec fn texts(s: Seq<String>) -> Seq<Seq<char>> {
    Seq::new(s.len(), |i: int| s[i]@)
}

/// The parts one after the other, with `separator` between neighbours.
pub open spec fn joined(parts: Seq<Seq<char>>, separator: Seq<char>) -> Seq<char>
    decreases parts.len(),
{
    if parts.len() == 0 {
        Seq::empty()
    } else if parts.len() == 1 {
        parts[0]
    } else {
        joined(parts.drop_last(), separator) + separator + parts.last()
    }
}

/// The parts one after the other, with `separator` between neighbours.
pub fn join(parts: &Vec<String>, separator: &str) -> (r: String)
    ensures
        r@ == joined(texts(parts@), separator@),
{
    let mut out = String::new();
    let mut i: usize = 0;
    proof {
        assert(texts(parts@).take(0) =~= Seq::<Seq<char>>::empty());
        assert(out@ =~= joined(texts(parts@).take(0), separator@));
    }
    while i < parts.len()
        invariant
            i <= parts@.len(),
            out@ == joined(texts(parts@).take(i as int), separator@),
        decreases parts@.len() - i,
    {
        let ghost all = texts(parts@);
        proof {
            assert(all.take(i + 1).drop_last() =~= all.take(i as int));
            assert(all.take(i + 1).last() == parts@[i as int]@);
        }
        if i > 0 {
            out.append(separator);
        }
        out.append(parts[i].as_str());
        proof {
            if i == 0 {
                assert(out@ =~= parts@[0]@);
            }
        }
        i += 1;
    }
    proof {
        assert(texts(parts@).take(parts@.len() as int) =~= texts(parts@));
    }
    out
}

// ---------------------------------------------------------------------------
// Decimal numbers.
// ---------------------------------------------------------------------------
/// The character of a decimal digit.
pub open spec fn digit(d: nat) -> char {
    (('0' as u32) + d) as char
}

/// `n` in decimal, without leading zeros.
pub open spec fn decimal(n: nat) -> Seq<char>
    decreases n,
{
    if n < 10 {
        seq![digit(n)]
    } else {
        decimal(n / 10).push(digit(n % 10))
    }
}

fn digit_char(d: u64) -> (r: char)
    requires
        d < 10,
    ensures
        r == digit(d as nat),
{
    (48u8 + (d as u8)) as char
}

/// `n` in decimal, without leading zeros.
pub fn decimal_of(n: u64) -> (r: String)
    ensures
        r@ == decimal(n as nat),
    decreases n,
{
    if n < 10 {
        let mut out = String::new();
        out.push(digit_char(n));
        proof {
            assert(out@ =~= seq![digit(n as nat)]);
        }
        out
    } else {
        let mut out = decimal_of(n / 10);
        out.push(digit_char(n % 10));
        out
    }
}

/// Whether `c` is an ASCII digit.
pub open spec fn is_digit(c: char) -> bool {
    '0' <= c <= '9'
}

/// The number that a row of digits writes in decimal.
pub open spec fn digits_value(s: Seq<char>) -> nat
    decreases s.len(),
{
    if s.len() == 0 {
        0
    } else {
        (digits_value(s.drop_last()) * 10 + (s.last() as u32 - '0' as u32)) as nat
    }
}

/// The number below 65536 that nothing but digits, and at least one, write.
pub open spec fn u16_digits(digits: Seq<char>) -> Option<u16> {
    if digits.len() > 0 && (forall|i: int| 0 <= i < digits.len() ==> is_digit(#[trigger] digits[i]))
        && digits_value(digits) <= u16::MAX {
        Some(digits_value(digits) as u16)
    } else {
        None
    }
}

/// The number that `s` writes: an optional plus sign, then digits.
pub open spec fn u16_text(s: Seq<char>) -> Option<u16> {
    if s.len() > 0 && s[0] == '+' {
        u16_digits(s.drop_first())
    } else {
        u16_digits(s)
    }
}

/// A longer row of digits writes no smaller number.
proof fn lemma_digits_value_grows(s: Seq<char>, i: int)
    requires
        0 <= i <= s.len(),
        forall|j: int| 0 <= j < s.len() ==> is_digit(#[trigger] s[j]),
    ensures
        digits_value(s.take(i)) <= digits_value(s),
    decreases s.len(),
{
    if i == s.len() {
        assert(s.take(i) =~= s);
    } else {
        let t = s.drop_last();
        assert forall|j: int| 0 <= j < t.len() implies is_digit(#[trigger] t[j]) by {
            assert(t[j] == s[j]);
        }
        lemma_digits_value_grows(t, i);
        assert(t.take(i) =~= s.take(i));
        assert(is_digit(s[s.len() - 1]));
    }
}

/// The port number that `text` writes, if it writes one.
pub fn parse_u16(text: &str) -> (r: Option<u16>)
    ensures
        r == u16_text(text@),
{
    let chars = chars_of(text);
    let start: usize = if chars.len() > 0 && chars[0] == '+' {
        1
    } else {
        0
    };
    let ghost digits = if text@.len() > 0 && text@[0] == '+' {
        text@.drop_first()
    } else {
        text@
    };
    proof {
        assert(digits =~= chars@.skip(start as int));
    }
    if start == chars.len() {
        return None;
    }
    let mut value: u32 = 0;
    let mut i: usize = start;
    proof {
        assert(digits.take(0) =~= Seq::<char>::empty());
    }
    while i < chars.len()
        invariant
            start <= i <= chars@.len(),
            start < chars@.len(),
            digits == chars@.skip(start as int),
            u16_text(text@) == u16_digits(digits),
            value <= u16::MAX,
            value == digits_value(digits.take(i - start)),
            forall|j: int| 0 <= j < i - start ==> is_digit(#[trigger] digits[j]),
        decreases chars@.len() - i,
    {
        let c = chars[i];
        proof {
            assert(digits[i - start] == c);
            assert(digits.take(i + 1 - start).drop_last() =~= digits.take(i - start));
            assert(digits.take(i + 1 - start).last() == c);
        }
        if c < '0' || c > '9' {
            return None;
        }
        value = value * 10 + (c as u32 - '0' as u32);
        if value > 65535 {
            proof {
                if forall|k: int| 0 <= k < digits.len() ==> is_digit(#[trigger] digits[k]) {
                    lemma_digits_value_grows(digits, i + 1 - start);
                }
            }
            return None;
        }
        i += 1;
    }
    proof {
        assert(digits.take(i - start) =~= digits);
    }
    Some(value as u16)
}

// ---------------------------------------------------------------------------
// What holds of texts.
// ---------------------------------------------------------------------------
/// Well-formed bytes show as the very text that they encode.
pub proof fn encoded_text_shows_as_itself(s: Seq<char>)
    ensures
        shown(encode_utf8(s)) == s,
{
    encode_utf8_valid_utf8(s);
    encode_utf8_decode_utf8(s);
}

/// In ASCII, lowercase changes the capital letters, each to its small one, and nothing
/// else.
pub proof fn ascii_lowercase_changes_capitals_only(s: Seq<char>, i: int)
    requires
        is_ascii_chars(s),
        0 <= i < s.len(),
    ensures
        lowered(s).len() == s.len(),
        'A' <= s[i] <= 'Z' ==> lowered(s)[i] as u32 == s[i] as u32 + 32,
        !('A' <= s[i] <= 'Z') ==> lowered(s)[i] == s[i],
{
    assert(0 <= s[i] as u32 <= 127);
}

/// The first characters of a text begin it, and there are as many as asked for, or all.
pub proof fn prefix_begins_the_text(s: Seq<char>, n: nat)
    ensures
        exists|rest: Seq<char>| s == prefix(s, n) + rest && (prefix(s, n).len() == n || (rest.len() == 0
            && s.len() <= n)),
{
    let rest = s.skip(prefix(s, n).len() as int);
    assert(s =~= prefix(s, n) + rest);
}

/// A text is cut at the first such character: what stands before it has none, and
/// nothing but it is lost. A text without one is not cut.
pub proof fn cut_takes_one_character_out(before: Seq<char>, c: char, after: Seq<char>)
    requires
        !before.contains(c),
    ensures
        cut(before + seq![c] + after, c) == Some((before, after)),
        cut(before, c) is None,
{
    let s = before + seq![c] + after;
    let n = before.len() as int;
    assert forall|j: int| 0 <= j < n implies #[trigger] s[j] != c by {
        assert(s[j] == before[j] && before.contains(before[j]));
    }
    lemma_first_char_unique(s, c, n);
    assert(s.take(n) =~= before);
    assert(s.skip(n + 1) =~= after);
    assert forall|j: int| 0 <= j < n implies #[trigger] before[j] != c by {
        assert(before.contains(before[j]));
    }
    lemma_first_char_unique(before, c, n);
}

/// A text holds what was put anywhere into it, and whatever it holds can be taken out of
/// it again.
pub proof fn text_holds_what_was_put_in(before: Seq<char>, part: Seq<char>, after: Seq<char>)
    ensures
        contains_text(before + part + after, part),
{
    let s = before + part + after;
    assert(s.subrange(before.len() as int, (before.len() + part.len()) as int) =~= part);
    assert(occurs_at(s, part, before.len() as int));
}

/// What a text holds stands somewhere in it, with something before and something after.
pub proof fn held_text_can_be_taken_out(s: Seq<char>, part: Seq<char>)
    requires
        contains_text(s, part),
    ensures
        exists|before: Seq<char>, after: Seq<char>| s == #[trigger] (before + part + after),
{
    let i = choose|i: int| occurs_at(s, part, i);
    let before = s.take(i);
    let after = s.skip(i + part.len());
    assert(s.subrange(i, i + part.len()) == part);
    assert(s =~= before + part + after);
}

/// Taking leading slashes off a text takes nothing else off, and leaves none.
pub proof fn only_leading_slashes_go(slashes: Seq<char>, rest: Seq<char>)
    requires
        forall|i: int| 0 <= i < slashes.len() ==> slashes[i] == '/',
        rest.len() > 0 ==> rest[0] != '/',
    ensures
        without_slashes(slashes + rest) == rest,
{
    let s = slashes + rest;
    let p = |c: char| c == '/';
    let n = slashes.len() as int;
    assert forall|j: int| 0 <= j < n implies p(#[trigger] s[j]) by {
        assert(s[j] == slashes[j]);
    }
    if n < s.len() {
        assert(s[n] == rest[0]);
    }
    lemma_trim_start(s, p, n);
    assert(s.skip(n) =~= rest);
}

/// Taking the end of a line off takes newlines and carriage returns off, nothing else,
/// and leaves none behind what else there is.
pub proof fn only_the_line_end_goes(line: Seq<char>, end: Seq<char>)
    requires
        forall|i: int| 0 <= i < end.len() ==> end[i] == '\n' || end[i] == '\r',
        line.len() > 0 ==> line.last() != '\n' && line.last() != '\r',
    ensures
        without_line_end(line + end) == line,
{
    let s = line + end;
    let p = |c: char| line_end(c);
    let n = line.len() as int;
    assert forall|j: int| n <= j < s.len() implies p(#[trigger] s[j]) by {
        assert(s[j] == end[j - n]);
    }
    if n > 0 {
        assert(s[n - 1] == line.last());
    }
    lemma_trim_end(s, p, n);
    assert(s.take(n) =~= line);
}

/// Trimming a text takes white space off both ends, and nothing else.
pub proof fn only_outer_white_space_goes(head: Seq<char>, core: Seq<char>, tail: Seq<char>)
    requires
        forall|i: int| 0 <= i < head.len() ==> white_space(#[trigger] head[i]),
        forall|i: int| 0 <= i < tail.len() ==> white_space(#[trigger] tail[i]),
        core.len() > 0 ==> !white_space(core[0]) && !white_space(core.last()),
    ensures
        trimmed(head + core + tail) == core,
{
    let s = head + core + tail;
    let p = |c: char| white_space(c);
    let n = head.len() as int;
    if core.len() == 0 {
        assert forall|j: int| 0 <= j < s.len() implies p(#[trigger] s[j]) by {
            if j < n {
                assert(s[j] == head[j]);
            } else {
                assert(s[j] == tail[j - n]);
            }
        }
        lemma_trim_start(s, p, s.len() as int);
        assert(s.skip(s.len() as int) =~= core);
    } else {
        assert forall|j: int| 0 <= j < n implies p(#[trigger] s[j]) by {
            assert(s[j] == head[j]);
        }
        assert(s[n] == core[0]);
        lemma_trim_start(s, p, n);
        let t = s.skip(n);
        let m = core.len() as int;
        assert(t =~= core + tail);
        assert forall|j: int| m <= j < t.len() implies p(#[trigger] t[j]) by {
            assert(t[j] == tail[j - m]);
        }
        assert(t[m - 1] == core.last());
        lemma_trim_end(t, p, m);
        assert(t.take(m) =~= core);
    }
}

/// Blanks, tabs and line ends are white space; letters, digits, and the signs that
/// messages are made of are not.
pub proof fn plain_characters_are_not_white_space(c: char)
    ensures
        c == ' ' || c == '\t' || c == '\n' || c == '\r' ==> white_space(c),
        '!' <= c <= '~' ==> !white_space(c),
{
}

/// Joining no parts gives nothing, joining one gives that one, and what two lists are
/// joined to, with the separator between, is what both together are joined to.
pub proof fn joined_lists_join_up(
    a: Seq<Seq<char>>,
    b: Seq<Seq<char>>,
    part: Seq<char>,
    separator: Seq<char>,
)
    ensures
        joined(Seq::empty(), separator) == Seq::<char>::empty(),
        joined(seq![part], separator) == part,
        a.len() > 0 && b.len() > 0 ==> joined(a + b, separator) == joined(a, separator) + separator
            + joined(b, separator),
    decreases b.len(),
{
    if a.len() > 0 && b.len() > 0 {
        let all = a + b;
        assert(all.drop_last() =~= a + b.drop_last());
        assert(all.last() == b.last());
        if b.len() == 1 {
            assert(all.drop_last() =~= a);
        } else {
            joined_lists_join_up(a, b.drop_last(), part, separator);
            assert(joined(all, separator) =~= joined(a, separator) + separator + joined(
                b,
                separator,
            ));
        }
    }
}

/// A number in decimal is made of digits and reads back as that number; no zero stands in
/// front of it, unless it is zero.
pub proof fn decimal_reads_back(n: nat)
    ensures
        decimal(n).len() > 0,
        forall|i: int| 0 <= i < decimal(n).len() ==> '0' <= #[trigger] decimal(n)[i] <= '9',
        digits_value(decimal(n)) == n,
        n > 0 ==> decimal(n)[0] != '0',
    decreases n,
{
    let s = decimal(n);
    if n < 10 {
        assert(s.drop_last() =~= Seq::<char>::empty());
        assert(digits_value(s.drop_last()) == 0);
        assert(s.last() as u32 == 48 + n);
    } else {
        decimal_reads_back(n / 10);
        assert(s.drop_last() =~= decimal(n / 10));
        assert(s.last() as u32 == 48 + n % 10);
        assert(s[0] == decimal(n / 10)[0]);
    }
}

/// A number that fits into sixteen bits can be read from its decimal form, also with a
/// plus sign in front; a larger one cannot.
pub proof fn small_numbers_can_be_read(n: nat)
    ensures
        n <= u16::MAX ==> u16_text(decimal(n)) == Some(n as u16),
        n <= u16::MAX ==> u16_text(seq!['+'] + decimal(n)) == Some(n as u16),
        n > u16::MAX ==> u16_text(decimal(n)) is None,
{
    let s = decimal(n);
    decimal_reads_back(n);
    assert forall|i: int| 0 <= i < s.len() implies is_digit(#[trigger] s[i]) by {
        assert('0' <= s[i] <= '9');
    }
    assert('0' <= s[0] <= '9');
    assert((seq!['+'] + s).drop_first() =~= s);
}

/// A text with anything but digits behind an optional plus sign is no number, and neither
/// is one without digits. A zero in front changes nothing.
pub proof fn only_digits_are_a_number(s: Seq<char>, i: int)
    ensures
        u16_text(Seq::empty()) is None,
        u16_text(seq!['+']) is None,
        0 <= i < s.len() && !('0' <= s[i] <= '9') && !(i == 0 && s[0] == '+') ==> u16_text(s) is None,
        s.len() > 0 && s[0] != '+' ==> u16_text(seq!['0'] + s) == u16_text(s),
{
    assert(seq!['+'].drop_first() =~= Seq::<char>::empty());
    if 0 <= i < s.len() && !('0' <= s[i] <= '9') && !(i == 0 && s[0] == '+') {
        if s[0] == '+' {
            assert(s.drop_first()[i - 1] == s[i]);
            assert(!is_digit(s.drop_first()[i - 1]));
        } else {
            assert(!is_digit(s[i]));
        }
    }
    if s.len() > 0 && s[0] != '+' {
        let t = seq!['0'] + s;
        lemma_leading_zero(s);
        if forall|j: int| 0 <= j < s.len() ==> is_digit(#[trigger] s[j]) {
            assert forall|j: int| 0 <= j < t.len() implies is_digit(#[trigger] t[j]) by {
                if j > 0 {
                    assert(t[j] == s[j - 1]);
                }
            }
        } else {
            let j = choose|j: int| 0 <= j < s.len() && !is_digit(#[trigger] s[j]);
            assert(t[j + 1] == s[j]);
            assert(!is_digit(t[j + 1]));
        }
    }
}

proof fn lemma_leading_zero(s: Seq<char>)
    ensures
        digits_value(seq!['0'] + s) == digits_value(s),
    decreases s.len(),
{
    let t = seq!['0'] + s;
    if s.len() == 0 {
        assert(t.drop_last() =~= Seq::<char>::empty());
        assert(digits_value(t.drop_last()) == 0);
        assert(t.last() == '0');
    } else {
        assert(t.drop_last() =~= seq!['0'] + s.drop_last());
        assert(t.last() == s.last());
        lemma_leading_zero(s.drop_last());
    }
}

} // verus!
