//! Strings as sequences of characters: the operations that the rest of the
//! crate needs, each with the sequence it computes.

use vstd::prelude::*;
use vstd::string::*;
use vstd::utf8::encode_scalar;
use vstd::utf8::encode_utf8;

verus! {

/// What a string holds.
pub type Text = Seq<char>;

/// `String::push`: the character is appended.
pub assume_specification[ String::push ](s: &mut String, c: char)
    ensures
        final(s)@ == old(s)@.push(c),
;

// ---------------------------------------------------------------------------
// Bytes
// ---------------------------------------------------------------------------

/// Bytes that UTF-8 takes for one character.
pub open spec fn char_width(c: char) -> nat {
    let v = c as u32;
    if v <= 0x7f {
        1
    } else if v <= 0x7ff {
        2
    } else if v <= 0xffff {
        3
    } else {
        4
    }
}

/// Bytes that UTF-8 takes for a text.
pub open spec fn byte_len(s: Text) -> nat
    decreases s.len(),
{
    if s.len() == 0 {
        0
    } else {
        byte_len(s.drop_last()) + char_width(s.last())
    }
}

proof fn lemma_encode_push(s: Text, c: char)
    ensures
        encode_utf8(s.push(c)) == encode_utf8(s) + encode_scalar(c as u32),
    decreases s.len(),
{
    if s.len() == 0 {
        assert(s.push(c).drop_first() =~= Seq::<char>::empty());
        assert(encode_utf8(s.push(c)) =~= encode_scalar(c as u32) + encode_utf8(
            Seq::<char>::empty(),
        ));
        assert(encode_utf8(Seq::<char>::empty()) =~= Seq::<u8>::empty());
        assert(encode_utf8(s) =~= Seq::<u8>::empty());
        assert(encode_scalar(c as u32) + Seq::<u8>::empty() =~= Seq::<u8>::empty() + encode_scalar(
            c as u32,
        ));
    } else {
        lemma_encode_push(s.drop_first(), c);
        assert(s.push(c).drop_first() =~= s.drop_first().push(c));
        assert(s.push(c)[0] == s[0]);
        assert((encode_scalar(s[0] as u32) + encode_utf8(s.drop_first())) + encode_scalar(c as u32)
            =~= encode_scalar(s[0] as u32) + (encode_utf8(s.drop_first()) + encode_scalar(
            c as u32,
        )));
    }
}

proof fn lemma_encoded_len(s: Text)
    ensures
        encode_utf8(s).len() == byte_len(s),
    decreases s.len(),
{
    if s.len() > 0 {
        lemma_encoded_len(s.drop_last());
        lemma_encode_push(s.drop_last(), s.last());
        assert(s.drop_last().push(s.last()) =~= s);
        vstd::utf8::char_is_scalar(s.last());
        assert(encode_scalar(s.last() as u32).len() == char_width(s.last()));
    } else {
        assert(encode_utf8(s).len() == 0);
    }
}

/// A concatenation takes the bytes of its parts.
pub proof fn lemma_byte_len_add(a: Text, b: Text)
    ensures
        byte_len(a + b) == byte_len(a) + byte_len(b),
    decreases b.len(),
{
    if b.len() == 0 {
        assert(a + b =~= a);
    } else {
        assert((a + b).drop_last() =~= a + b.drop_last());
        lemma_byte_len_add(a, b.drop_last());
    }
}

/// A text takes at least one byte and at most four for each character.
pub proof fn lemma_byte_len_bounds(s: Text)
    ensures
        s.len() <= byte_len(s) <= 4 * s.len(),
    decreases s.len(),
{
    if s.len() > 0 {
        lemma_byte_len_bounds(s.drop_last());
    }
}

/// A longer prefix takes at least as many bytes.
pub proof fn lemma_byte_len_mono(s: Text, i: int, j: int)
    requires
        0 <= i <= j <= s.len(),
    ensures
        byte_len(s.take(i)) + (j - i) <= byte_len(s.take(j)),
{
    assert(s.take(j) =~= s.take(i) + s.subrange(i, j));
    lemma_byte_len_add(s.take(i), s.subrange(i, j));
    lemma_byte_len_bounds(s.subrange(i, j));
}

/// The number of bytes of `s`.
pub fn str_bytes(s: &str) -> (r: usize)
    ensures
        r == byte_len(s@),
        s@.len() <= r,
{
    let b = s.as_bytes();
    proof {
        lemma_encoded_len(s@);
        lemma_byte_len_bounds(s@);
    }
    b.len()
}

/// Bytes that UTF-8 takes for `c`.
pub fn width_of(c: char) -> (r: usize)
    ensures
        r == char_width(c),
        1 <= r <= 4,
{
    let v: u32 = c as u32;
    if v <= 0x7f {
        1
    } else if v <= 0x7ff {
        2
    } else if v <= 0xffff {
        3
    } else {
        4
    }
}

// ---------------------------------------------------------------------------
// Characters
// ---------------------------------------------------------------------------

/// The characters of `s`.
pub fn to_chars(s: &str) -> (r: Vec<char>)
    ensures
        r@ == s@,
{
    let mut r: Vec<char> = Vec::new();
    for c in it: s.chars()
        invariant
            r@ == s@.take(it.index()),
            it.seq() == s@,
    {
        r.push(c);
    }
    r
}

/// The text between two positions of a list of characters.
pub fn from_chars(v: &Vec<char>, from: usize, to: usize) -> (r: String)
    requires
        from <= to <= v@.len(),
    ensures
        r@ == v@.subrange(from as int, to as int),
{
    let mut r = String::new();
    let mut i: usize = from;
    while i < to
        invariant
            from <= i <= to <= v@.len(),
            r@ == v@.subrange(from as int, i as int),
        decreases to - i,
    {
        r.push(v[i]);
        i = i + 1;
    }
    r
}

/// A copy of `s`.
pub fn copy(s: &str) -> (r: String)
    ensures
        r@ == s@,
{
    s.to_owned()
}

/// Whether two strings hold the same text.
pub fn same(a: &str, b: &str) -> (r: bool)
    ensures
        r == (a@ == b@),
{
    let x = to_chars(a);
    let y = to_chars(b);
    if x.len() != y.len() {
        return false;
    }
    let mut i: usize = 0;
    while i < x.len()
        invariant
            i <= x@.len() == y@.len(),
            x@.take(i as int) == y@.take(i as int),
            x@ == a@,
            y@ == b@,
        decreases x@.len() - i,
    {
        if x[i] != y[i] {
            return false;
        }
        assert(x@.take(i + 1) =~= x@.take(i as int).push(x@[i as int]));
        assert(y@.take(i + 1) =~= y@.take(i as int).push(y@[i as int]));
        i = i + 1;
    }
    assert(x@.take(i as int) =~= x@);
    assert(y@.take(i as int) =~= y@);
    true
}

// ---------------------------------------------------------------------------
// White space
// ---------------------------------------------------------------------------

/// Unicode's `White_Space` property.
pub open spec fn is_white(c: char) -> bool {
    let v = c as u32;
    ||| 0x09 <= v <= 0x0d
    ||| v == 0x20
    ||| v == 0x85
    ||| v == 0xa0
    ||| v == 0x1680
    ||| 0x2000 <= v <= 0x200a
    ||| v == 0x2028
    ||| v == 0x2029
    ||| v == 0x202f
    ||| v == 0x205f
    ||| v == 0x3000
}

/// Whether `c` is white space.
pub fn white(c: char) -> (r: bool)
    ensures
        r == is_white(c),
{
    let v: u32 = c as u32;
    (0x09 <= v && v <= 0x0d) || v == 0x20 || v == 0x85 || v == 0xa0 || v == 0x1680 || (0x2000 <= v
        && v <= 0x200a) || v == 0x2028 || v == 0x2029 || v == 0x202f || v == 0x205f || v == 0x3000
}

/// The text without its leading white space.
pub open spec fn trimmed_start(s: Text) -> Text
    decreases s.len(),
{
    if s.len() > 0 && is_white(s[0]) {
        trimmed_start(s.drop_first())
    } else {
        s
    }
}

/// The text without its trailing white space.
pub open spec fn trimmed_end(s: Text) -> Text
    decreases s.len(),
{
    if s.len() > 0 && is_white(s.last()) {
        trimmed_end(s.drop_last())
    } else {
        s
    }
}

/// The text without the white space around it.
pub open spec fn trimmed(s: Text) -> Text {
    trimmed_end(trimmed_start(s))
}

/// Whether the text holds nothing but white space.
pub open spec fn is_blank(s: Text) -> bool {
    trimmed(s).len() == 0
}

/// `s` without its leading white space.
pub fn trim_start(s: &str) -> (r: String)
    ensures
        r@ == trimmed_start(s@),
{
    let v = to_chars(s);
    let mut i: usize = 0;
    assert(v@.skip(0) =~= s@);
    while i < v.len() && white(v[i])
        invariant
            i <= v@.len(),
            v@ == s@,
            trimmed_start(s@) == trimmed_start(v@.skip(i as int)),
        decreases v@.len() - i,
    {
        assert(v@.skip(i as int).drop_first() =~= v@.skip(i + 1));
        i = i + 1;
    }
    assert(v@.subrange(i as int, v@.len() as int) =~= v@.skip(i as int));
    from_chars(&v, i, v.len())
}

/// `s` without its trailing white space.
pub fn trim_end(s: &str) -> (r: String)
    ensures
        r@ == trimmed_end(s@),
{
    let v = to_chars(s);
    let mut i: usize = v.len();
    assert(v@.take(i as int) =~= s@);
    while i > 0 && white(v[i - 1])
        invariant
            i <= v@.len(),
            trimmed_end(s@) == trimmed_end(v@.take(i as int)),
        decreases i,
    {
        assert(v@.take(i as int).drop_last() =~= v@.take(i - 1));
        i = i - 1;
    }
    from_chars(&v, 0, i)
}

/// `s` without the white space around it.
pub fn trim(s: &str) -> (r: String)
    ensures
        r@ == trimmed(s@),
{
    let t = trim_start(s);
    trim_end(t.as_str())
}

/// Whether `s` holds nothing but white space.
pub fn blank(s: &str) -> (r: bool)
    ensures
        r == is_blank(s@),
{
    let t = trim(s);
    t.as_str().is_empty()
}

proof fn lemma_trim_start(s: Text) -> (i: int)
    ensures
        0 <= i <= s.len(),
        trimmed_start(s) == s.skip(i),
        forall|k: int| 0 <= k < i ==> is_white(#[trigger] s[k]),
        i < s.len() ==> !is_white(s[i]),
    decreases s.len(),
{
    if s.len() > 0 && is_white(s[0]) {
        let rest = s.drop_first();
        let i = lemma_trim_start(rest);
        assert(rest.skip(i) =~= s.skip(i + 1));
        assert forall|k: int| 0 <= k < i + 1 implies is_white(#[trigger] s[k]) by {
            if k > 0 {
                assert(rest[k - 1] == s[k]);
            }
        }
        if i < rest.len() {
            assert(rest[i] == s[i + 1]);
        }
        i + 1
    } else {
        assert(s.skip(0) =~= s);
        0
    }
}

proof fn lemma_trim_end(s: Text) -> (j: int)
    ensures
        0 <= j <= s.len(),
        trimmed_end(s) == s.take(j),
        forall|k: int| j <= k < s.len() ==> is_white(#[trigger] s[k]),
        j > 0 ==> !is_white(s[j - 1]),
    decreases s.len(),
{
    if s.len() > 0 && is_white(s.last()) {
        let rest = s.drop_last();
        let j = lemma_trim_end(rest);
        assert(rest.take(j) =~= s.take(j));
        assert forall|k: int| j <= k < s.len() implies is_white(#[trigger] s[k]) by {
            if k < rest.len() {
                assert(rest[k] == s[k]);
            }
        }
        if j > 0 {
            assert(rest[j - 1] == s[j - 1]);
        }
        j
    } else {
        assert(s.take(s.len() as int) =~= s);
        s.len() as int
    }
}

/// Trimming takes away white space alone, all of it at both ends, and leaves what stands
/// between: the result is where these two places say.
pub proof fn law_trim_takes_white_space_alone(s: Text) -> (ends: (int, int))
    ensures
        0 <= ends.0 <= ends.1 <= s.len(),
        trimmed(s) == s.subrange(ends.0, ends.1),
        forall|k: int| 0 <= k < ends.0 ==> is_white(#[trigger] s[k]),
        forall|k: int| ends.1 <= k < s.len() ==> is_white(#[trigger] s[k]),
        ends.0 < ends.1 ==> !is_white(s[ends.0]) && !is_white(s[ends.1 - 1]),
{
    let i = lemma_trim_start(s);
    let rest = s.skip(i);
    let j = lemma_trim_end(rest);
    assert(rest.take(j) =~= s.subrange(i, i + j));
    assert forall|k: int| i + j <= k < s.len() implies is_white(#[trigger] s[k]) by {
        assert(rest[k - i] == s[k]);
    }
    if j > 0 {
        assert(rest[j - 1] == s[i + j - 1]);
        if is_white(s[i]) {
            assert(i >= s.len());
        }
    }
    (i, i + j)
}

/// A text is blank exactly where each of its characters is white space.
pub proof fn law_blank_is_all_white(s: Text)
    ensures
        is_blank(s) == (forall|k: int| 0 <= k < s.len() ==> is_white(#[trigger] s[k])),
{
    let (i, j) = law_trim_takes_white_space_alone(s);
    if i < j {
        assert(!is_white(s[i]));
    } else {
        assert forall|k: int| 0 <= k < s.len() implies is_white(#[trigger] s[k]) by {}
    }
}

// ---------------------------------------------------------------------------
// Searching
// ---------------------------------------------------------------------------

/// Whether `sub` stands at position `i` of `s`.
pub open spec fn occurs_at(s: Text, sub: Text, i: int) -> bool {
    0 <= i && i + sub.len() <= s.len() && s.subrange(i, i + sub.len()) == sub
}

/// Whether `sub` stands anywhere in `s`.
pub open spec fn has_substring(s: Text, sub: Text) -> bool {
    exists|i: int| occurs_at(s, sub, i)
}

/// Whether `s` begins with `sub`.
pub open spec fn has_prefix(s: Text, sub: Text) -> bool {
    occurs_at(s, sub, 0)
}

/// Whether `s` ends with `sub`.
pub open spec fn has_suffix(s: Text, sub: Text) -> bool {
    occurs_at(s, sub, s.len() - sub.len())
}

/// Whether `sub` stands at position `i` of `s`.
pub fn stands_at(s: &Vec<char>, sub: &Vec<char>, i: usize) -> (r: bool)
    ensures
        r == occurs_at(s@, sub@, i as int),
{
    if i > s.len() || sub.len() > s.len() - i {
        return false;
    }
    let mut j: usize = 0;
    while j < sub.len()
        invariant
            j <= sub@.len(),
            i + sub@.len() <= s.len(),
            s@.subrange(i as int, i + j) == sub@.take(j as int),
        decreases sub@.len() - j,
    {
        if s[i + j] != sub[j] {
            assert(s@.subrange(i as int, i + sub@.len())[j as int] != sub@[j as int]);
            return false;
        }
        assert(s@.subrange(i as int, i + j + 1) =~= s@.subrange(i as int, i + j).push(
            s@[i + j],
        ));
        assert(sub@.take(j + 1) =~= sub@.take(j as int).push(sub@[j as int]));
        j = j + 1;
    }
    assert(sub@.take(j as int) =~= sub@);
    true
}

/// The first position at or after `from` where `sub` stands in `s`.
pub fn find_from(s: &Vec<char>, sub: &Vec<char>, from: usize) -> (r: Option<usize>)
    ensures
        match r {
            Some(i) => from <= i && occurs_at(s@, sub@, i as int) && forall|j: int|
                from <= j < i ==> !occurs_at(s@, sub@, j),
            None => forall|j: int| from <= j ==> !occurs_at(s@, sub@, j),
        },
{
    if sub.len() > s.len() {
        return None;
    }
    let last: usize = s.len() - sub.len();
    let mut i: usize = from;
    while i <= last
        invariant
            last == s@.len() - sub@.len(),
            forall|j: int| from <= j < i ==> !occurs_at(s@, sub@, j),
            from <= i,
        decreases last + 1 - i,
    {
        if stands_at(s, sub, i) {
            return Some(i);
        }
        if i == last {
            return None;
        }
        i = i + 1;
    }
    None
}

/// Whether `sub` stands anywhere in `s`.
pub fn contains(s: &str, sub: &str) -> (r: bool)
    ensures
        r == has_substring(s@, sub@),
{
    let a = to_chars(s);
    let b = to_chars(sub);
    match find_from(&a, &b, 0) {
        Some(_) => true,
        None => {
            assert forall|i: int| !occurs_at(s@, sub@, i) by {
                if i >= 0 {
                    assert(!occurs_at(a@, b@, i));
                }
            }
            false
        },
    }
}

/// Whether `s` begins with `sub`.
pub fn starts_with(s: &str, sub: &str) -> (r: bool)
    ensures
        r == has_prefix(s@, sub@),
{
    let a = to_chars(s);
    let b = to_chars(sub);
    stands_at(&a, &b, 0)
}

/// Whether `s` ends with `sub`.
pub fn ends_with(s: &str, sub: &str) -> (r: bool)
    ensures
        r == has_suffix(s@, sub@),
{
    let a = to_chars(s);
    let b = to_chars(sub);
    if b.len() > a.len() {
        return false;
    }
    stands_at(&a, &b, a.len() - b.len())
}

/// What follows `sub` where `s` begins with it.
pub fn strip_prefix(s: &str, sub: &str) -> (r: Option<String>)
    ensures
        match r {
            Some(rest) => has_prefix(s@, sub@) && rest@ == s@.skip(sub@.len() as int),
            None => !has_prefix(s@, sub@),
        },
{
    let a = to_chars(s);
    let b = to_chars(sub);
    if stands_at(&a, &b, 0) {
        Some(from_chars(&a, b.len(), a.len()))
    } else {
        None
    }
}

// ---------------------------------------------------------------------------
// Splitting and joining
// ---------------------------------------------------------------------------

/// The pieces of `s` between the occurrences of `c`: one more than there are
/// occurrences.
pub open spec fn split_at_char(s: Text, c: char) -> Seq<Text>
    decreases s.len(),
{
    if s.len() == 0 {
        seq![Seq::empty()]
    } else {
        let before = split_at_char(s.drop_last(), c);
        if s.last() == c {
            before.push(Seq::empty())
        } else {
            before.drop_last().push(before.last().push(s.last()))
        }
    }
}

/// A split has at least one piece.
pub proof fn lemma_split_nonempty(s: Text, c: char)
    ensures
        split_at_char(s, c).len() >= 1,
    decreases s.len(),
{
    if s.len() > 0 {
        lemma_split_nonempty(s.drop_last(), c);
    }
}

/// What a list of strings holds.
pub open spec fn texts(v: Seq<String>) -> Seq<Text> {
    Seq::new(v.len(), |i: int| v[i]@)
}

/// The pieces of `s` between the occurrences of `c`.
pub fn split_char(s: &str, c: char) -> (r: Vec<String>)
    ensures
        texts(r@) == split_at_char(s@, c),
{
    let v = to_chars(s);
    let mut r: Vec<String> = Vec::new();
    let mut piece = String::new();
    let mut i: usize = 0;
    assert(texts(r@).push(piece@) =~= split_at_char(v@.take(0), c));
    while i < v.len()
        invariant
            i <= v@.len(),
            v@ == s@,
            texts(r@).push(piece@) == split_at_char(v@.take(i as int), c),
        decreases v@.len() - i,
    {
        let ghost before = texts(r@).push(piece@);
        assert(v@.take(i + 1).drop_last() =~= v@.take(i as int));
        assert(v@.take(i + 1).last() == v@[i as int]);
        assert(before.drop_last() =~= texts(r@));
        assert(before.last() == piece@);
        if v[i] == c {
            r.push(piece);
            piece = String::new();
            assert(texts(r@) =~= before);
        } else {
            piece.push(v[i]);
        }
        i = i + 1;
    }
    assert(v@.take(i as int) =~= s@);
    let ghost all = texts(r@).push(piece@);
    r.push(piece);
    assert(texts(r@) =~= all);
    r
}

/// A line without the carriage return that ends it.
pub open spec fn without_cr(line: Text) -> Text {
    if line.len() > 0 && line.last() == '\r' {
        line.drop_last()
    } else {
        line
    }
}

/// The lines of a text: a line ends with `\n` or `\r\n`, and the last one may
/// lack its ending.
pub open spec fn lines_of(s: Text) -> Seq<Text> {
    let pieces = split_at_char(s, '\n');
    let ended = pieces.drop_last().map_values(|p: Text| without_cr(p));
    if pieces.last().len() == 0 {
        ended
    } else {
        ended.push(pieces.last())
    }
}

/// The lines of `s`.
pub fn lines(s: &str) -> (r: Vec<String>)
    ensures
        texts(r@) == lines_of(s@),
{
    let pieces = split_char(s, '\n');
    proof {
        lemma_split_nonempty(s@, '\n');
    }
    let ghost ps = texts(pieces@);
    let mut r: Vec<String> = Vec::new();
    let mut i: usize = 0;
    while i < pieces.len() - 1
        invariant
            1 <= pieces@.len(),
            i <= pieces@.len() - 1,
            ps == texts(pieces@),
            texts(r@) == ps.take(i as int).map_values(|p: Text| without_cr(p)),
        decreases pieces@.len() - i,
    {
        let chars = to_chars(pieces[i].as_str());
        let ghost was = r@;
        if chars.len() > 0 && chars[chars.len() - 1] == '\r' {
            r.push(from_chars(&chars, 0, chars.len() - 1));
        } else {
            r.push(copy(pieces[i].as_str()));
        }
        assert(r@.last()@ =~= without_cr(ps[i as int]));
        assert(texts(r@) =~= texts(was).push(without_cr(ps[i as int])));
        assert(ps.take(i + 1) =~= ps.take(i as int).push(ps[i as int]));
        assert(ps.take(i + 1).map_values(|p: Text| without_cr(p)) =~= ps.take(i as int).map_values(
            |p: Text| without_cr(p),
        ).push(without_cr(ps[i as int])));
        i = i + 1;
    }
    assert(ps.drop_last() =~= ps.take(i as int));
    let last = pieces[pieces.len() - 1].as_str();
    if !last.is_empty() {
        let ghost was = r@;
        r.push(copy(last));
        assert(texts(r@) =~= texts(was).push(last@));
    }
    r
}

/// The pieces of a text put together with `sep` between them.
pub open spec fn joined(parts: Seq<Text>, sep: Text) -> Text
    decreases parts.len(),
{
    if parts.len() == 0 {
        Seq::empty()
    } else if parts.len() == 1 {
        parts[0]
    } else {
        joined(parts.drop_last(), sep) + sep + parts.last()
    }
}

/// Each of the parts stands in what they are put together to.
pub proof fn lemma_joined_has(parts: Seq<Text>, sep: Text, i: int)
    requires
        0 <= i < parts.len(),
    ensures
        has_substring(joined(parts, sep), parts[i]),
        joined(parts, sep).len() >= parts[i].len(),
    decreases parts.len(),
{
    let all = joined(parts, sep);
    let part = parts[i];
    if parts.len() == 1 {
        assert(all.subrange(0, part.len() as int) =~= part);
        assert(occurs_at(all, part, 0));
    } else if i == parts.len() - 1 {
        let at = all.len() - part.len();
        assert(all.subrange(at, all.len() as int) =~= part);
        assert(occurs_at(all, part, at));
    } else {
        let front = joined(parts.drop_last(), sep);
        lemma_joined_has(parts.drop_last(), sep, i);
        let at = choose|at: int| occurs_at(front, part, at);
        assert(all.subrange(at, at + part.len()) =~= front.subrange(at, at + part.len()));
        assert(occurs_at(all, part, at));
    }
}

/// A text stands in what is put before and behind it.
pub proof fn lemma_stands_between(a: Text, b: Text, c: Text)
    ensures
        has_substring(a + b + c, b),
{
    let all = a + b + c;
    let at = a.len() as int;
    assert(all.subrange(at, at + b.len()) =~= b);
    assert(occurs_at(all, b, at));
}

/// Two texts stand in what they are put together to.
pub proof fn lemma_both_stand(a: Text, b: Text)
    ensures
        has_substring(a + b, a),
        has_substring(a + b, b),
        has_prefix(a + b, a),
{
    let all = a + b;
    assert(all.subrange(0, a.len() as int) =~= a);
    assert(occurs_at(all, a, 0));
    assert(all.subrange(a.len() as int, all.len() as int) =~= b);
    assert(occurs_at(all, b, a.len() as int));
}

/// What stands in a text that stands in another stands there too.
pub proof fn lemma_stands_within(s: Text, t: Text, u: Text)
    requires
        has_substring(s, t),
        has_substring(t, u),
    ensures
        has_substring(s, u),
{
    let i = choose|i: int| occurs_at(s, t, i);
    let j = choose|j: int| occurs_at(t, u, j);
    assert(s.subrange(i, i + t.len()) == t);
    assert(s.subrange(i + j, i + j + u.len()) =~= t.subrange(j, j + u.len()));
    assert(occurs_at(s, u, i + j));
}

/// The strings of `parts` put together with `sep` between them.
pub fn join(parts: &Vec<String>, sep: &str) -> (r: String)
    ensures
        r@ == joined(texts(parts@), sep@),
{
    let mut r = String::new();
    let mut i: usize = 0;
    let ghost ps = texts(parts@);
    assert(joined(ps.take(0), sep@) =~= Seq::<char>::empty());
    while i < parts.len()
        invariant
            i <= parts@.len(),
            ps == texts(parts@),
            r@ == joined(ps.take(i as int), sep@),
        decreases parts@.len() - i,
    {
        assert(ps.take(i + 1).drop_last() =~= ps.take(i as int));
        assert(ps.take(i + 1).last() == ps[i as int]);
        if i > 0 {
            r.append(sep);
        }
        r.append(parts[i].as_str());
        assert(r@ =~= joined(ps.take(i + 1), sep@));
        i = i + 1;
    }
    assert(ps.take(i as int) =~= ps);
    r
}

/// The words of a text: its longest pieces without white space.
pub open spec fn words_of(s: Text) -> Seq<Text>
    decreases s.len(),
{
    if s.len() == 0 {
        Seq::empty()
    } else {
        let before = words_of(s.drop_last());
        if is_white(s.last()) {
            before
        } else if s.len() == 1 || is_white(s[s.len() - 2]) {
            before.push(seq![s.last()])
        } else {
            before.drop_last().push(before.last().push(s.last()))
        }
    }
}

/// Whether a text is a single word.
pub open spec fn is_word(w: Text) -> bool {
    w.len() > 0 && forall|i: int| 0 <= i < w.len() ==> !is_white(#[trigger] w[i])
}

/// The words of a text are words.
pub proof fn lemma_words_are_words(s: Text)
    ensures
        forall|i: int| 0 <= i < words_of(s).len() ==> is_word(#[trigger] words_of(s)[i]),
        s.len() > 0 && !is_white(s.last()) ==> words_of(s).len() > 0,
    decreases s.len(),
{
    if s.len() > 0 {
        let t = s.drop_last();
        lemma_words_are_words(t);
        let before = words_of(t);
        if !is_white(s.last()) && s.len() > 1 && !is_white(s[s.len() - 2]) {
            assert(t.last() == s[s.len() - 2]);
            assert(is_word(before[before.len() - 1]));
            assert(is_word(before.last().push(s.last())));
        } else if !is_white(s.last()) {
            assert(is_word(seq![s.last()]));
        }
    }
}

proof fn lemma_words_append(s: Text, w: Text)
    requires
        is_word(w),
        s.len() == 0 || is_white(s.last()),
    ensures
        words_of(s + w) == words_of(s).push(w),
    decreases w.len(),
{
    let all = s + w;
    let before = w.drop_last();
    assert(all.drop_last() =~= s + before);
    assert(all.last() == w.last());
    if before.len() == 0 {
        assert(s + before =~= s);
        assert(w =~= seq![w.last()]);
        if s.len() > 0 {
            assert(all[all.len() - 2] == s.last());
        }
    } else {
        lemma_words_append(s, before);
        assert(all[all.len() - 2] == w[w.len() - 2]);
        let found = words_of(s).push(before);
        assert(found.drop_last() =~= words_of(s));
        assert(found.last().push(w.last()) =~= w);
    }
}

/// Words that are joined by blanks are the words of what they are joined to.
pub proof fn lemma_words_of_joined(ws: Seq<Text>)
    requires
        forall|i: int| 0 <= i < ws.len() ==> is_word(#[trigger] ws[i]),
    ensures
        words_of(joined(ws, " "@)) == ws,
    decreases ws.len(),
{
    reveal_strlit(" ");
    if ws.len() == 0 {
        assert(words_of(joined(ws, " "@)) =~= ws);
    } else if ws.len() == 1 {
        let none = Seq::<char>::empty();
        lemma_words_append(none, ws[0]);
        assert(none + ws[0] =~= ws[0]);
        assert(words_of(none).push(ws[0]) =~= ws);
    } else {
        let rest = ws.drop_last();
        assert forall|i: int| 0 <= i < rest.len() implies is_word(#[trigger] rest[i]) by {
            assert(rest[i] == ws[i]);
        }
        lemma_words_of_joined(rest);
        let j = joined(rest, " "@);
        let spaced = j + " "@;
        assert(spaced.drop_last() =~= j);
        assert(spaced.last() == ' ');
        lemma_words_append(spaced, ws.last());
        assert(rest.push(ws.last()) =~= ws);
    }
}

/// The words of `s`.
pub fn words(s: &str) -> (r: Vec<String>)
    ensures
        texts(r@) == words_of(s@),
{
    let v = to_chars(s);
    let mut r: Vec<String> = Vec::new();
    let mut word = String::new();
    let mut i: usize = 0;
    while i < v.len()
        invariant
            i <= v@.len(),
            v@ == s@,
            (i > 0 && !is_white(v@[i - 1])) <==> word@.len() > 0,
            words_of(v@.take(i as int)) == if word@.len() > 0 {
                texts(r@).push(word@)
            } else {
                texts(r@)
            },
        decreases v@.len() - i,
    {
        let ghost upto = v@.take(i + 1);
        let ghost was = r@;
        assert(upto.drop_last() =~= v@.take(i as int));
        assert(upto.last() == v@[i as int]);
        if i > 0 {
            assert(upto[upto.len() - 2] == v@[i - 1]);
        }
        if white(v[i]) {
            if !word.as_str().is_empty() {
                let ghost w = word@;
                r.push(word);
                word = String::new();
                assert(texts(r@) =~= texts(was).push(w));
            }
        } else {
            let ghost w = word@;
            word.push(v[i]);
            proof {
                if w.len() > 0 {
                    assert(texts(was).push(w).drop_last() =~= texts(was));
                } else {
                    assert(word@ =~= seq![v@[i as int]]);
                }
            }
        }
        i = i + 1;
    }
    assert(v@.take(i as int) =~= s@);
    if !word.as_str().is_empty() {
        let ghost was = r@;
        let ghost w = word@;
        r.push(word);
        assert(texts(r@) =~= texts(was).push(w));
    }
    r
}

/// The text from `from` on, with `to` in place of each occurrence of `sub`,
/// taken from the left without overlap. `sub` is not empty.
pub open spec fn replaced_from(s: Text, sub: Text, to: Text, from: int) -> Text
    decreases s.len() - from,
{
    if sub.len() == 0 || from < 0 || from >= s.len() {
        Seq::empty()
    } else if occurs_at(s, sub, from) {
        to + replaced_from(s, sub, to, from + sub.len())
    } else {
        seq![s[from]] + replaced_from(s, sub, to, from + 1)
    }
}

/// The text with `to` in place of each occurrence of `sub`.
pub open spec fn replaced(s: Text, sub: Text, to: Text) -> Text {
    replaced_from(s, sub, to, 0)
}

/// `s` with `to` in place of each occurrence of `sub`.
pub fn replace(s: &str, sub: &str, to: &str) -> (r: String)
    requires
        sub@.len() > 0,
    ensures
        r@ == replaced(s@, sub@, to@),
{
    let a = to_chars(s);
    let b = to_chars(sub);
    let mut r = String::new();
    let mut i: usize = 0;
    while i < a.len()
        invariant
            i <= a.len(),
            a@ == s@,
            b@ == sub@,
            b@.len() > 0,
            r@ + replaced_from(s@, sub@, to@, i as int) == replaced(s@, sub@, to@),
        decreases a@.len() - i,
    {
        let ghost was = r@;
        if stands_at(&a, &b, i) {
            r.append(to);
            assert(was + (to@ + replaced_from(s@, sub@, to@, i + b@.len())) =~= r@ + replaced_from(
                s@,
                sub@,
                to@,
                i + b@.len(),
            ));
            i = i + b.len();
        } else {
            r.push(a[i]);
            assert(was + (seq![a@[i as int]] + replaced_from(s@, sub@, to@, i + 1)) =~= r@
                + replaced_from(s@, sub@, to@, i + 1));
            i = i + 1;
        }
    }
    assert(r@ + replaced_from(s@, sub@, to@, i as int) =~= r@);
    r
}

/// The first position at or after `from` where `sub` stands in `s`.
pub open spec fn index_from(s: Text, sub: Text, from: int) -> Option<int>
    decreases s.len() + 1 - from,
{
    if from + sub.len() > s.len() {
        None
    } else if occurs_at(s, sub, from) {
        Some(from)
    } else {
        index_from(s, sub, from + 1)
    }
}

/// The first position where `sub` stands in `s`.
pub open spec fn index_of(s: Text, sub: Text) -> Option<int> {
    index_from(s, sub, 0)
}

/// The first position where `sub` stands in `s`.
pub fn find(s: &Vec<char>, sub: &Vec<char>) -> (r: Option<usize>)
    ensures
        match r {
            Some(i) => index_of(s@, sub@) == Some(i as int) && i + sub.len() <= s.len(),
            None => index_of(s@, sub@) is None,
        },
{
    if sub.len() > s.len() {
        return None;
    }
    let last: usize = s.len() - sub.len();
    let mut i: usize = 0;
    while i <= last
        invariant
            i <= last + 1,
            last == s.len() - sub.len(),
            index_of(s@, sub@) == index_from(s@, sub@, i as int),
        decreases last + 1 - i,
    {
        if stands_at(s, sub, i) {
            return Some(i);
        }
        if i == last {
            assert(index_from(s@, sub@, i + 1) is None);
            return None;
        }
        i = i + 1;
    }
    None
}

/// What stands before the first `sep`; everything where there is none.
pub open spec fn before(s: Text, sep: Text) -> Text {
    match index_of(s, sep) {
        Some(i) => s.take(i),
        None => s,
    }
}

/// What stands before the first `sep` in `s`.
pub fn part_before(s: &str, sep: &str) -> (r: String)
    ensures
        r@ == before(s@, sep@),
{
    let a = to_chars(s);
    let b = to_chars(sep);
    match find(&a, &b) {
        Some(i) => {
            assert(a@.subrange(0, i as int) =~= a@.take(i as int));
            from_chars(&a, 0, i)
        },
        None => copy(s),
    }
}

/// What stands after the first `sep`, where there is one.
pub open spec fn after(s: Text, sep: Text) -> Option<Text> {
    match index_of(s, sep) {
        Some(i) => Some(s.skip(i + sep.len())),
        None => None,
    }
}

/// What stands after the first `sep` in `s`.
pub fn part_after(s: &str, sep: &str) -> (r: Option<String>)
    ensures
        opt_text(r) == after(s@, sep@),
{
    let a = to_chars(s);
    let b = to_chars(sep);
    match find(&a, &b) {
        Some(i) => {
            assert(a@.subrange(i + b@.len(), a@.len() as int) =~= a@.skip(i + b@.len()));
            Some(from_chars(&a, i + b.len(), a.len()))
        },
        None => None,
    }
}

/// What stands between `prefix` and `suffix`, where the text begins with the
/// one and the rest ends with the other.
pub open spec fn between(s: Text, prefix: Text, suffix: Text) -> Option<Text> {
    let rest = s.skip(prefix.len() as int);
    if has_prefix(s, prefix) && has_suffix(rest, suffix) {
        Some(rest.take(rest.len() - suffix.len()))
    } else {
        None
    }
}

/// What stands between `prefix` and `suffix` in `s`.
pub fn part_between(s: &str, prefix: &str, suffix: &str) -> (r: Option<String>)
    ensures
        opt_text(r) == between(s@, prefix@, suffix@),
{
    match strip_prefix(s, prefix) {
        Some(rest) => {
            if ends_with(rest.as_str(), suffix) {
                let a = to_chars(rest.as_str());
                let b = to_chars(suffix);
                assert(a@.subrange(0, a@.len() - b@.len()) =~= a@.take(a@.len() - b@.len()));
                Some(from_chars(&a, 0, a.len() - b.len()))
            } else {
                None
            }
        },
        None => None,
    }
}

/// Two strings in a row.
pub fn cat2(a: &str, b: &str) -> (r: String)
    ensures
        r@ == a@ + b@,
{
    let mut r = copy(a);
    r.append(b);
    r
}

/// Three strings in a row.
pub fn cat3(a: &str, b: &str, c: &str) -> (r: String)
    ensures
        r@ == a@ + b@ + c@,
{
    let mut r = cat2(a, b);
    r.append(c);
    r
}

/// Four strings in a row.
pub fn cat4(a: &str, b: &str, c: &str, d: &str) -> (r: String)
    ensures
        r@ == a@ + b@ + c@ + d@,
{
    let mut r = cat3(a, b, c);
    r.append(d);
    r
}

/// Five strings in a row.
pub fn cat5(a: &str, b: &str, c: &str, d: &str, e: &str) -> (r: String)
    ensures
        r@ == a@ + b@ + c@ + d@ + e@,
{
    let mut r = cat4(a, b, c, d);
    r.append(e);
    r
}

/// Six strings in a row.
pub fn cat6(a: &str, b: &str, c: &str, d: &str, e: &str, f: &str) -> (r: String)
    ensures
        r@ == a@ + b@ + c@ + d@ + e@ + f@,
{
    let mut r = cat5(a, b, c, d, e);
    r.append(f);
    r
}

/// Seven strings in a row.
pub fn cat7(a: &str, b: &str, c: &str, d: &str, e: &str, f: &str, g: &str) -> (r: String)
    ensures
        r@ == a@ + b@ + c@ + d@ + e@ + f@ + g@,
{
    let mut r = cat6(a, b, c, d, e, f);
    r.append(g);
    r
}

// ---------------------------------------------------------------------------
// Cutting
// ---------------------------------------------------------------------------

/// The first `n` characters, with an ellipsis where there are more.
pub open spec fn ellipsized(s: Text, n: int) -> Text {
    if s.len() > n {
        s.take(n) + "…"@
    } else {
        s
    }
}

/// The first `n` characters of `s`, with an ellipsis where there are more.
pub fn ellipsize(s: &str, n: usize) -> (r: String)
    ensures
        r@ == ellipsized(s@, n as int),
{
    let head = take_chars(s, n);
    if s.unicode_len() > n {
        cat2(head.as_str(), "…")
    } else {
        head
    }
}

/// The first `n` characters of a text, or all of it.
pub open spec fn first_chars(s: Text, n: int) -> Text {
    if s.len() <= n {
        s
    } else {
        s.take(n)
    }
}

/// The first `n` characters of `s`.
pub fn take_chars(s: &str, n: usize) -> (r: String)
    ensures
        r@ == first_chars(s@, n as int),
{
    let v = to_chars(s);
    if v.len() <= n {
        copy(s)
    } else {
        assert(v@.subrange(0, n as int) =~= v@.take(n as int));
        from_chars(&v, 0, n)
    }
}

/// The number of leading characters of `s` that fit into `max` bytes.
pub open spec fn fitting(s: Text, max: int) -> int
    decreases s.len(),
{
    if byte_len(s) <= max || s.len() == 0 {
        s.len() as int
    } else {
        fitting(s.drop_last(), max)
    }
}

/// The longest prefix of `s` that fits into `max` bytes.
pub open spec fn prefix_within(s: Text, max: int) -> Text {
    s.take(fitting(s, max))
}

/// `fitting` counts the most leading characters that fit.
pub proof fn lemma_fitting(s: Text, max: int)
    requires
        max >= 0,
    ensures
        0 <= fitting(s, max) <= s.len(),
        byte_len(s.take(fitting(s, max))) <= max,
        forall|n: int| fitting(s, max) < n <= s.len() ==> byte_len(#[trigger] s.take(n)) > max,
    decreases s.len(),
{
    if byte_len(s) <= max || s.len() == 0 {
        assert(s.take(s.len() as int) =~= s);
    } else {
        let t = s.drop_last();
        lemma_fitting(t, max);
        let f = fitting(t, max);
        assert(s.take(f) =~= t.take(f));
        assert forall|n: int| f < n <= s.len() implies byte_len(#[trigger] s.take(n)) > max by {
            if n < s.len() {
                assert(s.take(n) =~= t.take(n));
            } else {
                assert(s.take(n) =~= s);
            }
        }
    }
}

proof fn lemma_fitting_is(s: Text, max: int, k: int)
    requires
        0 <= k <= s.len(),
        max >= 0,
        byte_len(s.take(k)) <= max,
        k < s.len() ==> byte_len(s.take(k + 1)) > max,
    ensures
        fitting(s, max) == k,
{
    lemma_fitting(s, max);
    let f = fitting(s, max);
    if f < k {
        assert(byte_len(s.take(k)) > max);
    } else if f > k {
        lemma_byte_len_mono(s, k + 1, f);
    }
}

/// The longest prefix of `s` that fits into `max` bytes.
pub fn cut_bytes(s: &str, max: usize) -> (r: String)
    ensures
        r@ == prefix_within(s@, max as int),
{
    let v = to_chars(s);
    let mut i: usize = 0;
    let mut used: usize = 0;
    assert(v@.take(0) =~= Seq::<char>::empty());
    while i < v.len()
        invariant
            i <= v@.len(),
            v@ == s@,
            used == byte_len(v@.take(i as int)),
            used <= max,
        decreases v@.len() - i,
    {
        let w: usize = width_of(v[i]);
        assert(v@.take(i + 1).drop_last() =~= v@.take(i as int));
        assert(v@.take(i + 1).last() == v@[i as int]);
        if w > max - used {
            proof {
                lemma_fitting_is(s@, max as int, i as int);
            }
            assert(v@.subrange(0, i as int) =~= v@.take(i as int));
            return from_chars(&v, 0, i);
        }
        used = used + w;
        i = i + 1;
    }
    proof {
        assert(v@.take(i as int) =~= s@);
        lemma_fitting_is(s@, max as int, i as int);
    }
    copy(s)
}

// ---------------------------------------------------------------------------
// Numbers
// ---------------------------------------------------------------------------

/// The character of a decimal digit.
pub open spec fn digit_char(d: nat) -> char {
    (('0' as u32) + d) as char
}

/// A number in decimal.
pub open spec fn decimal(n: nat) -> Text
    decreases n,
{
    if n < 10 {
        seq![digit_char(n)]
    } else {
        decimal(n / 10).push(digit_char(n % 10))
    }
}

/// A number in decimal is digits only, and at least one.
pub proof fn lemma_decimal_digits(n: nat)
    ensures
        decimal(n).len() > 0,
        forall|i: int| 0 <= i < decimal(n).len() ==> '0' <= #[trigger] decimal(n)[i] <= '9',
    decreases n,
{
    if n >= 10 {
        lemma_decimal_digits(n / 10);
    }
}

/// Different numbers differ in decimal.
pub proof fn lemma_decimal_injective(a: nat, b: nat)
    requires
        decimal(a) == decimal(b),
    ensures
        a == b,
    decreases a,
{
    lemma_decimal_digits(a / 10);
    lemma_decimal_digits(b / 10);
    let last_a = a % 10;
    let last_b = b % 10;
    assert(decimal(a).last() == digit_char(last_a));
    assert(decimal(b).last() == digit_char(last_b));
    assert(digit_char(last_a) as nat == '0' as nat + last_a);
    assert(digit_char(last_b) as nat == '0' as nat + last_b);
    assert(last_a == last_b);
    if a >= 10 {
        assert(decimal(a) == decimal(a / 10).push(digit_char(last_a)));
        assert(decimal(a).drop_last() =~= decimal(a / 10));
    }
    if b >= 10 {
        assert(decimal(b) == decimal(b / 10).push(digit_char(last_b)));
        assert(decimal(b).drop_last() =~= decimal(b / 10));
    }
    if a >= 10 && b >= 10 {
        lemma_decimal_injective(a / 10, b / 10);
    }
}

fn digit(d: u64) -> (r: char)
    requires
        d < 10,
    ensures
        r == digit_char(d as nat),
{
    match d {
        0 => '0',
        1 => '1',
        2 => '2',
        3 => '3',
        4 => '4',
        5 => '5',
        6 => '6',
        7 => '7',
        8 => '8',
        _ => '9',
    }
}

/// `n` in decimal.
pub fn big_number(n: u128) -> (r: String)
    ensures
        r@ == decimal(n as nat),
    decreases n,
{
    if n < 10 {
        let mut r = String::new();
        r.push(digit(n as u64));
        assert(r@ =~= seq![digit_char(n as nat)]);
        r
    } else {
        let mut r = big_number(n / 10);
        r.push(digit((n % 10) as u64));
        r
    }
}

/// `n` in decimal.
pub fn number(n: u64) -> (r: String)
    ensures
        r@ == decimal(n as nat),
{
    big_number(n as u128)
}

/// `n` in decimal.
pub fn count(n: usize) -> (r: String)
    ensures
        r@ == decimal(n as nat),
{
    number(n as u64)
}

/// The value of a decimal digit.
pub open spec fn digit_value(c: char) -> Option<nat> {
    if '0' <= c <= '9' {
        Some(((c as u32) - ('0' as u32)) as nat)
    } else {
        None
    }
}

/// The number that a text of decimal digits stands for; `None` where a
/// character is no digit.
pub open spec fn digits_value(s: Text) -> Option<nat>
    decreases s.len(),
{
    if s.len() == 0 {
        Some(0)
    } else {
        match (digits_value(s.drop_last()), digit_value(s.last())) {
            (Some(hi), Some(d)) => Some(hi * 10 + d),
            _ => None,
        }
    }
}

/// The number that a text stands for: decimal digits, at least one, with an
/// optional `+` before them, below `limit`.
pub open spec fn parsed_number(s: Text, limit: nat) -> Option<nat> {
    let digits = if s.len() > 0 && s[0] == '+' {
        s.skip(1)
    } else {
        s
    };
    if digits.len() == 0 {
        None
    } else {
        match digits_value(digits) {
            Some(n) if n < limit => Some(n),
            _ => None,
        }
    }
}

proof fn lemma_digits_prefix(s: Text, k: int)
    requires
        0 <= k <= s.len(),
    ensures
        digits_value(s.take(k)) is None ==> digits_value(s) is None,
        digits_value(s) is Some ==> digits_value(s.take(k)) is Some && digits_value(
            s.take(k),
        )->Some_0 <= digits_value(s)->Some_0,
    decreases s.len() - k,
{
    if k == s.len() {
        assert(s.take(k) =~= s);
    } else {
        lemma_digits_prefix(s, k + 1);
        assert(s.take(k + 1).drop_last() =~= s.take(k));
    }
}

/// The number that `s` stands for, where it fits into a `usize`.
pub fn parse_usize(s: &str) -> (r: Option<usize>)
    ensures
        match r {
            Some(n) => parsed_number(s@, usize::MAX as nat + 1) == Some(n as nat),
            None => parsed_number(s@, usize::MAX as nat + 1) is None,
        },
{
    let v = to_chars(s);
    let start: usize = if v.len() > 0 && v[0] == '+' {
        1
    } else {
        0
    };
    let ghost ds = v@.skip(start as int);
    assert(start == 0 ==> ds =~= s@);
    if start == v.len() {
        return None;
    }
    let mut i: usize = start;
    let mut n: usize = 0;
    assert(ds.take(0) =~= Seq::<char>::empty());
    while i < v.len()
        invariant
            start <= i <= v@.len(),
            v@ == s@,
            ds == v@.skip(start as int),
            ds.len() > 0,
            parsed_number(s@, usize::MAX as nat + 1) == (match digits_value(ds) {
                Some(n) if n < usize::MAX as nat + 1 => Some(n),
                _ => None,
            }),
            digits_value(ds.take(i - start)) == Some(n as nat),
        decreases v@.len() - i,
    {
        let c = v[i];
        proof {
            assert(ds.take(i - start + 1).drop_last() =~= ds.take(i - start));
            assert(ds.take(i - start + 1).last() == c);
            lemma_digits_prefix(ds, i - start + 1);
        }
        if !('0' <= c && c <= '9') {
            return None;
        }
        let d: usize = (c as u32 - '0' as u32) as usize;
        if n > (usize::MAX - d) / 10 {
            assert(n * 10 + d > usize::MAX);
            return None;
        }
        n = n * 10 + d;
        i = i + 1;
    }
    assert(ds.take(i - start) =~= ds);
    Some(n)
}

// ---------------------------------------------------------------------------
// Case
// ---------------------------------------------------------------------------

/// What `str::to_lowercase` makes of a text.
pub uninterp spec fn lowercased(s: Text) -> Text;

/// The small letter for a capital of ASCII; any other character is itself.
pub open spec fn ascii_small(c: char) -> char {
    if 'A' <= c <= 'Z' {
        ((c as u32) + 32) as char
    } else {
        c
    }
}

/// A text with the capitals of ASCII made small.
pub open spec fn ascii_lowered(s: Text) -> Text {
    s.map_values(|c: char| ascii_small(c))
}

/// Whether a text is made of ASCII alone.
pub open spec fn is_ascii(s: Text) -> bool {
    forall|i: int| 0 <= i < s.len() ==> (#[trigger] s[i]) as u32 <= 0x7f
}

/// `str::to_lowercase`: the lowercase equivalent of a string, a function of
/// its text alone. Of ASCII it makes the capitals small. A capital of ASCII and its
/// small letter have the same lowercase equivalent, so texts that differ only in these
/// have the same result.
#[verifier::external_body]
pub(crate) fn to_lower(s: &str) -> (r: String)
    ensures
        r@ == lowercased(s@),
        is_ascii(s@) ==> r@ == ascii_lowered(s@),
        forall|t: Text|
            ascii_lowered(t) == ascii_lowered(s@) ==> #[trigger] lowercased(t) == r@,
{
    s.to_lowercase()
}

/// What an optional string holds.
pub open spec fn opt_text(o: Option<String>) -> Option<Text> {
    match o {
        Some(s) => Some(s@),
        None => None,
    }
}

/// A copy of an optional string.
pub fn copy_opt(o: &Option<String>) -> (r: Option<String>)
    ensures
        opt_text(r) == opt_text(*o),
{
    match o {
        Some(s) => Some(copy(s.as_str())),
        None => None,
    }
}

/// A copy of a list of strings.
pub fn copy_all(v: &Vec<String>) -> (r: Vec<String>)
    ensures
        texts(r@) == texts(v@),
{
    let mut r: Vec<String> = Vec::new();
    let mut i: usize = 0;
    while i < v.len()
        invariant
            i <= v@.len(),
            r@.len() == i,
            forall|j: int| 0 <= j < i ==> r@[j]@ == v@[j]@,
        decreases v@.len() - i,
    {
        r.push(copy(v[i].as_str()));
        i = i + 1;
    }
    assert(texts(r@) =~= texts(v@));
    r
}

/// Append a string to a list of strings.
pub fn push_text(list: &mut Vec<String>, s: String)
    ensures
        texts(final(list)@) == texts(old(list)@).push(s@),
{
    let ghost was = list@;
    let ghost added = s@;
    list.push(s);
    assert(texts(list@) =~= texts(was).push(added));
}

/// Items with a mark before each.
pub open spec fn marked(items: Seq<Text>, mark: Text) -> Seq<Text> {
    Seq::new(items.len(), |i: int| mark + items[i])
}

/// Append the strings of `items` to a list, with a mark before each.
pub fn push_marked(list: &mut Vec<String>, items: &Vec<String>, mark: &str)
    ensures
        texts(final(list)@) == texts(old(list)@) + marked(texts(items@), mark@),
{
    let ghost was = texts(list@);
    let ghost all = marked(texts(items@), mark@);
    let mut i: usize = 0;
    assert(was + all.take(0) =~= was);
    while i < items.len()
        invariant
            i <= items@.len(),
            all == marked(texts(items@), mark@),
            texts(list@) == was + all.take(i as int),
        decreases items@.len() - i,
    {
        push_text(list, cat2(mark, items[i].as_str()));
        assert(was + all.take(i + 1) =~= (was + all.take(i as int)).push(all[i as int]));
        i = i + 1;
    }
    assert(all.take(i as int) =~= all);
}

/// The first line of a text, where it has one.
pub open spec fn first_line(s: Text) -> Option<Text> {
    let lines = lines_of(s);
    if lines.len() > 0 {
        Some(lines[0])
    } else {
        None
    }
}

/// The first line of `s`.
pub fn take_line(s: &str) -> (r: Option<String>)
    ensures
        opt_text(r) == first_line(s@),
{
    let all = lines(s);
    let ghost ls = texts(all@);
    assert(ls.len() == all@.len());
    if all.len() > 0 {
        assert(ls[0] == all@[0]@);
        Some(copy(all[0].as_str()))
    } else {
        None
    }
}

/// Whether `a` comes before `b`, character by character.
pub open spec fn precedes(a: Text, b: Text) -> bool
    decreases a.len(),
{
    if b.len() == 0 {
        false
    } else if a.len() == 0 {
        true
    } else if a[0] != b[0] {
        a[0] < b[0]
    } else {
        precedes(a.drop_first(), b.drop_first())
    }
}

/// Whether `a` comes before `b`, character by character.
pub fn comes_before(a: &str, b: &str) -> (r: bool)
    ensures
        r == precedes(a@, b@),
{
    let x = to_chars(a);
    let y = to_chars(b);
    let mut i: usize = 0;
    assert(x@.skip(0) =~= a@);
    assert(y@.skip(0) =~= b@);
    loop
        invariant
            i <= x@.len(),
            i <= y@.len(),
            precedes(a@, b@) == precedes(x@.skip(i as int), y@.skip(i as int)),
        decreases x@.len() - i,
    {
        if i == y.len() {
            return false;
        }
        if i == x.len() {
            return true;
        }
        assert(x@.skip(i as int)[0] == x@[i as int]);
        assert(y@.skip(i as int)[0] == y@[i as int]);
        if x[i] != y[i] {
            return x[i] < y[i];
        }
        assert(x@.skip(i as int).drop_first() =~= x@.skip(i + 1));
        assert(y@.skip(i as int).drop_first() =~= y@.skip(i + 1));
        i = i + 1;
    }
}

/// No text precedes itself; of two different texts one precedes the other; and
/// what precedes a text precedes what that precedes.
pub proof fn lemma_precedes_is_order(a: Text, b: Text, c: Text)
    ensures
        !precedes(a, a),
        a == b || precedes(a, b) || precedes(b, a),
        !(precedes(a, b) && precedes(b, a)),
        precedes(a, b) && precedes(b, c) ==> precedes(a, c),
    decreases a.len() + b.len() + c.len(),
{
    if a.len() > 0 && b.len() > 0 && c.len() > 0 {
        lemma_precedes_is_order(a.drop_first(), b.drop_first(), c.drop_first());
        if a[0] == b[0] && a.drop_first() == b.drop_first() {
            assert(a =~= seq![a[0]] + a.drop_first());
            assert(b =~= seq![b[0]] + b.drop_first());
        }
    } else if a.len() > 0 && b.len() > 0 {
        lemma_precedes_is_order(a.drop_first(), b.drop_first(), c);
        if a[0] == b[0] && a.drop_first() == b.drop_first() {
            assert(a =~= seq![a[0]] + a.drop_first());
            assert(b =~= seq![b[0]] + b.drop_first());
        }
    } else if a.len() > 0 {
        lemma_precedes_is_order(a.drop_first(), b, c);
    } else {
        if b.len() == 0 {
            assert(a =~= b);
        }
    }
}

/// The first `n` bytes of a text, where they end with a character, else all of
/// it.
pub open spec fn byte_prefix(s: Text, n: int) -> Text {
    if byte_len(prefix_within(s, n)) == n {
        prefix_within(s, n)
    } else {
        s
    }
}

/// The first `n` bytes of `s`, where they end with a character, else `s`.
pub fn take_bytes(s: &str, n: usize) -> (r: String)
    ensures
        r@ == byte_prefix(s@, n as int),
{
    let p = cut_bytes(s, n);
    if str_bytes(p.as_str()) == n {
        p
    } else {
        copy(s)
    }
}

/// What stands in a text stands in all that is put together with it.
pub proof fn lemma_stands_on(a: Text, x: Text, b: Text)
    requires
        has_substring(a, x),
    ensures
        has_substring(a + b, x),
        has_substring(b + a, x),
{
    lemma_both_stand(a, b);
    lemma_both_stand(b, a);
    lemma_stands_within(a + b, a, x);
    lemma_stands_within(b + a, a, x);
}

/// What is found is the first place at which the text stands, and where nothing is found,
/// it stands nowhere.
pub proof fn law_first_place_is_found(s: Text, sub: Text)
    ensures
        match index_of(s, sub) {
            Some(i) => occurs_at(s, sub, i) && forall|j: int| 0 <= j < i ==> !occurs_at(s, sub, j),
            None => !has_substring(s, sub),
        },
{
    lemma_found_from(s, sub, 0);
}

proof fn lemma_found_from(s: Text, sub: Text, from: int)
    requires
        0 <= from,
    ensures
        match index_from(s, sub, from) {
            Some(i) => from <= i && occurs_at(s, sub, i) && forall|j: int|
                from <= j < i ==> !occurs_at(s, sub, j),
            None => forall|j: int| from <= j ==> !occurs_at(s, sub, j),
        },
    decreases s.len() + 1 - from,
{
    if from + sub.len() <= s.len() && !occurs_at(s, sub, from) {
        lemma_found_from(s, sub, from + 1);
    }
}

} // verus!
