//! Text helpers.
//!
//! A text is modelled by the sequence of its characters (`Seq<char>`), which is what the view of
//! `str` and `String` gives. Byte offsets, where a function speaks of them, are offsets into the
//! UTF-8 encoding of that sequence.
use vstd::prelude::*;
use vstd::string::*;
use vstd::utf8::*;

verus! {

/// `String::push` appends the given character to the end of the string.
pub assume_specification[ String::push ](s: &mut String, c: char)
    ensures
        final(s)@ == old(s)@.push(c),
;

/// The characters of a text, one by one.
pub fn chars_of(s: &str) -> (v: Vec<char>)
    ensures
        v@ == s@,
{
    let mut v: Vec<char> = Vec::new();
    for c in it: s.chars()
        invariant
            v@ == it.seq().take(it.index()),
            it.seq() == s@,
    {
        v.push(c);
        assert(v@ =~= it.seq().take(it.index() + 1));
    }
    assert(v@ =~= s@);
    v
}

/// The text made of the characters `from..to` of `v`.
pub fn text_of_range(v: &Vec<char>, from: usize, to: usize) -> (s: String)
    requires
        from <= to <= v@.len(),
    ensures
        s@ == v@.subrange(from as int, to as int),
{
    let mut s: String = String::new();
    let mut i: usize = from;
    while i < to
        invariant
            from <= i <= to <= v@.len(),
            s@ == v@.subrange(from as int, i as int),
        decreases to - i,
    {
        s.push(v[i]);
        i += 1;
        assert(s@ =~= v@.subrange(from as int, i as int));
    }
    s
}

/// The characters `from..to` of `v`.
pub fn chars_range(v: &Vec<char>, from: usize, to: usize) -> (r: Vec<char>)
    requires
        from <= to <= v@.len(),
    ensures
        r@ == v@.subrange(from as int, to as int),
{
    let mut r: Vec<char> = Vec::new();
    let mut i: usize = from;
    while i < to
        invariant
            from <= i <= to <= v@.len(),
            r@ == v@.subrange(from as int, i as int),
        decreases to - i,
    {
        r.push(v[i]);
        i += 1;
        assert(r@ =~= v@.subrange(from as int, i as int));
    }
    r
}

/// Whether two texts are the same.
pub fn same_text(a: &str, b: &str) -> (r: bool)
    ensures
        r == (a@ == b@),
{
    let x: &[u8] = a.as_bytes();
    let y: &[u8] = b.as_bytes();
    proof {
        encode_utf8_decode_utf8(a@);
        encode_utf8_decode_utf8(b@);
    }
    if x.len() != y.len() {
        return false;
    }
    let mut i: usize = 0;
    while i < x.len()
        invariant
            i <= x@.len() == y@.len(),
            x@ == encode_utf8(a@),
            y@ == encode_utf8(b@),
            forall|k: int| 0 <= k < i ==> x@[k] == y@[k],
        decreases x@.len() - i,
    {
        if x[i] != y[i] {
            return false;
        }
        i += 1;
    }
    assert(x@ =~= y@);
    true
}


/// Whether `c` has the Unicode `White_Space` property.
#[verifier::allow_in_spec]
pub fn is_white(c: char) -> bool
    returns
        ('\u{9}' <= c && c <= '\u{d}') || c == ' ' || c == '\u{85}' || c == '\u{a0}' || c == '\u{1680}'
            || ('\u{2000}' <= c && c <= '\u{200a}') || c == '\u{2028}' || c == '\u{2029}' || c
            == '\u{202f}' || c == '\u{205f}' || c == '\u{3000}',
{
    ('\u{9}' <= c && c <= '\u{d}') || c == ' ' || c == '\u{85}' || c == '\u{a0}' || c == '\u{1680}' || (
    '\u{2000}' <= c && c <= '\u{200a}') || c == '\u{2028}' || c == '\u{2029}' || c == '\u{202f}' || c
        == '\u{205f}' || c == '\u{3000}'
}

/// Whether `c` is an ASCII decimal digit.
#[verifier::allow_in_spec]
pub fn is_digit(c: char) -> bool
    returns
        '0' <= c && c <= '9',
{
    '0' <= c && c <= '9'
}

/// Whether `c` is an ASCII letter or an ASCII decimal digit.
#[verifier::allow_in_spec]
pub fn is_ascii_alnum(c: char) -> bool
    returns
        ('0' <= c && c <= '9') || ('A' <= c && c <= 'Z') || ('a' <= c && c <= 'z'),
{
    ('0' <= c && c <= '9') || ('A' <= c && c <= 'Z') || ('a' <= c && c <= 'z')
}

/// Whether `c` is an ASCII punctuation character: a visible ASCII character that is neither a
/// letter nor a digit.
#[verifier::allow_in_spec]
pub fn is_ascii_punct(c: char) -> bool
    returns
        ('!' <= c && c <= '/') || (':' <= c && c <= '@') || ('[' <= c && c <= '`') || ('{' <= c && c
            <= '~'),
{
    ('!' <= c && c <= '/') || (':' <= c && c <= '@') || ('[' <= c && c <= '`') || ('{' <= c && c
        <= '~')
}

/// Whether the standard library counts `c` as alphabetic, by its tables of Unicode properties.
pub uninterp spec fn unicode_alphabetic(c: char) -> bool;

/// Whether the standard library counts `c` as alphabetic or numeric, by its tables of Unicode
/// properties.
pub uninterp spec fn unicode_alphanumeric(c: char) -> bool;

/// `char::is_alphabetic` reads the Unicode property `Alphabetic`. Of the ASCII characters the
/// letters have it.
pub assume_specification[ char::is_alphabetic ](c: char) -> (r: bool)
    ensures
        r == unicode_alphabetic(c),
        c <= '\u{7f}' ==> r == (('A' <= c && c <= 'Z') || ('a' <= c && c <= 'z')),
;

/// `char::is_alphanumeric` reads Unicode properties. Of the ASCII characters the letters and the
/// decimal digits have them.
pub assume_specification[ char::is_alphanumeric ](c: char) -> (r: bool)
    ensures
        r == unicode_alphanumeric(c),
        c <= '\u{7f}' ==> r == is_ascii_alnum(c),
;

/// The lower-case form of an ASCII capital; any other character is its own.
pub open spec fn ascii_lower(c: char) -> char {
    if 'A' <= c && c <= 'Z' {
        (c as u32 + 32) as char
    } else {
        c
    }
}

/// The lower-case form of an ASCII capital; any other character is its own.
pub fn ascii_lower_char(c: char) -> (r: char)
    ensures
        r == ascii_lower(c),
{
    if 'A' <= c && c <= 'Z' {
        let n: u8 = c as u8;
        (n + 32) as char
    } else {
        c
    }
}

/// A text with every ASCII capital in lower case.
pub open spec fn lowered(s: Seq<char>) -> Seq<char> {
    Seq::new(s.len(), |i: int| ascii_lower(s[i]))
}

/// A text with every ASCII capital in lower case.
pub fn to_ascii_lowercase(s: &str) -> (r: String)
    ensures
        r@ == lowered(s@),
{
    let v: Vec<char> = chars_of(s);
    let mut r: String = String::new();
    let mut i: usize = 0;
    while i < v.len()
        invariant
            i <= v@.len(),
            r@ == lowered(v@.take(i as int)),
        decreases v@.len() - i,
    {
        r.push(ascii_lower_char(v[i]));
        i += 1;
        assert(r@ =~= lowered(v@.take(i as int)));
    }
    assert(v@.take(i as int) =~= v@);
    r
}

/// Whether two texts differ at most in the case of ASCII letters.
pub fn eq_ignore_ascii_case(a: &str, b: &str) -> (r: bool)
    ensures
        r == (lowered(a@) == lowered(b@)),
{
    let x: String = to_ascii_lowercase(a);
    let y: String = to_ascii_lowercase(b);
    same_text(x.as_str(), y.as_str())
}

/// A set of characters that a text can be stripped of.
#[derive(Clone, Copy, PartialEq, Eq, Structural)]
pub enum CharClass {
    /// White space.
    White,
    /// White space and ASCII punctuation.
    WhiteOrPunct,
    /// The double quote.
    DoubleQuote,
    /// The apostrophe.
    Apostrophe,
    /// The double quote, the apostrophe and the backtick.
    Quote,
    /// The marks that end a sentence or a clause: `.`, `,`, `;`, `:`, `!` and `?`.
    SentenceEnd,
    /// Everything but ASCII letters and digits.
    NotAlnum,
    /// The space.
    Space,
    /// The comma.
    Comma,
}

impl CharClass {
    /// Whether the class holds `c`.
    #[verifier::allow_in_spec]
    pub fn has(self, c: char) -> bool
        returns
            match self {
                CharClass::White => is_white(c),
                CharClass::WhiteOrPunct => is_white(c) || is_ascii_punct(c),
                CharClass::DoubleQuote => c == '"',
                CharClass::Apostrophe => c == '\'',
                CharClass::Quote => c == '"' || c == '\'' || c == '`',
                CharClass::SentenceEnd => c == '.' || c == ',' || c == ';' || c == ':' || c == '!'
                    || c == '?',
                CharClass::NotAlnum => !is_ascii_alnum(c),
                CharClass::Space => c == ' ',
                CharClass::Comma => c == ',',
            },
    {
        match self {
            CharClass::White => is_white(c),
            CharClass::WhiteOrPunct => is_white(c) || is_ascii_punct(c),
            CharClass::DoubleQuote => c == '"',
            CharClass::Apostrophe => c == '\'',
            CharClass::Quote => c == '"' || c == '\'' || c == '`',
            CharClass::SentenceEnd => c == '.' || c == ',' || c == ';' || c == ':' || c == '!' || c
                == '?',
            CharClass::NotAlnum => !is_ascii_alnum(c),
            CharClass::Space => c == ' ',
            CharClass::Comma => c == ',',
        }
    }
}

/// `s` without its longest prefix of characters of `class`.
pub open spec fn trimmed_start(s: Seq<char>, class: CharClass) -> Seq<char>
    decreases s.len(),
{
    if s.len() > 0 && class.has(s[0]) {
        trimmed_start(s.drop_first(), class)
    } else {
        s
    }
}

/// `s` without its longest suffix of characters of `class`.
pub open spec fn trimmed_end(s: Seq<char>, class: CharClass) -> Seq<char>
    decreases s.len(),
{
    if s.len() > 0 && class.has(s.last()) {
        trimmed_end(s.drop_last(), class)
    } else {
        s
    }
}

/// `s` stripped of the characters of `class` at both ends.
pub open spec fn trimmed(s: Seq<char>, class: CharClass) -> Seq<char> {
    trimmed_end(trimmed_start(s, class), class)
}

/// `s` stripped of white space at both ends.
pub open spec fn stripped(s: Seq<char>) -> Seq<char> {
    trimmed(s, CharClass::White)
}

/// `s` without its longest suffix of characters of `class`.
pub fn trim_end_by<'a>(s: &'a str, class: CharClass) -> (r: &'a str)
    ensures
        r@ == trimmed_end(s@, class),
{
    let v: Vec<char> = chars_of(s);
    let mut to: usize = v.len();
    assert(v@.take(to as int) =~= v@);
    while to > 0 && class.has(v[to - 1])
        invariant
            to <= v@.len(),
            trimmed_end(v@, class) == trimmed_end(v@.take(to as int), class),
        decreases to,
    {
        assert(v@.take(to as int).drop_last() =~= v@.take(to - 1));
        to -= 1;
    }
    assert(v@.take(to as int) =~= v@.subrange(0, to as int));
    s.substring_char(0, to)
}

/// `s` stripped of the characters of `class` at both ends.
pub fn trim_by<'a>(s: &'a str, class: CharClass) -> (r: &'a str)
    ensures
        r@ == trimmed(s@, class),
{
    let v: Vec<char> = chars_of(s);
    let mut from: usize = 0;
    assert(v@.skip(0) =~= v@);
    while from < v.len() && class.has(v[from])
        invariant
            from <= v@.len(),
            trimmed_start(v@, class) == trimmed_start(v@.skip(from as int), class),
        decreases v@.len() - from,
    {
        assert(v@.skip(from as int).drop_first() =~= v@.skip(from + 1));
        from += 1;
    }
    assert(v@.skip(from as int) =~= v@.subrange(from as int, v@.len() as int));
    let rest: &str = s.substring_char(from, v.len());
    trim_end_by(rest, class)
}

/// `s` stripped of white space at both ends.
pub fn trim<'a>(s: &'a str) -> (r: &'a str)
    ensures
        r@ == stripped(s@),
{
    trim_by(s, CharClass::White)
}

/// `s` without the characters of `class`.
pub open spec fn without(s: Seq<char>, class: CharClass) -> Seq<char>
    decreases s.len(),
{
    if s.len() == 0 {
        s
    } else if class.has(s.last()) {
        without(s.drop_last(), class)
    } else {
        without(s.drop_last(), class).push(s.last())
    }
}

/// `s` without the characters of `class`.
pub fn remove_class(s: &str, class: CharClass) -> (r: String)
    ensures
        r@ == without(s@, class),
{
    let v: Vec<char> = chars_of(s);
    let mut r: String = String::new();
    let mut i: usize = 0;
    while i < v.len()
        invariant
            i <= v@.len(),
            r@ == without(v@.take(i as int), class),
        decreases v@.len() - i,
    {
        assert(v@.take(i + 1).drop_last() =~= v@.take(i as int));
        if !class.has(v[i]) {
            r.push(v[i]);
        }
        i += 1;
    }
    assert(v@.take(i as int) =~= v@);
    r
}

/// Whether `needle` stands in `hay` at position `i`.
pub open spec fn stands_at(hay: Seq<char>, needle: Seq<char>, i: int) -> bool {
    &&& 0 <= i
    &&& i + needle.len() <= hay.len()
    &&& hay.subrange(i, i + needle.len()) == needle
}

/// Whether `needle` stands somewhere in `hay`.
pub open spec fn occurs_in(needle: Seq<char>, hay: Seq<char>) -> bool {
    exists|i: int| #[trigger] stands_at(hay, needle, i)
}

/// Whether the characters `needle` stand in `hay` at position `i`.
fn chars_stand_at(hay: &Vec<char>, needle: &Vec<char>, i: usize) -> (r: bool)
    requires
        i + needle@.len() <= hay@.len(),
    ensures
        r == stands_at(hay@, needle@, i as int),
{
    let mut k: usize = 0;
    while k < needle.len()
        invariant
            k <= needle@.len(),
            i + needle@.len() <= hay.len(),
            forall|j: int| 0 <= j < k ==> hay@[i + j] == needle@[j],
        decreases needle@.len() - k,
    {
        if hay[i + k] != needle[k] {
            assert(hay@.subrange(i as int, i + needle@.len())[k as int] != needle@[k as int]);
            return false;
        }
        k += 1;
    }
    assert(hay@.subrange(i as int, i + needle@.len()) =~= needle@);
    true
}

/// Whether `needle` stands somewhere in `hay`.
pub fn contains_text(hay: &str, needle: &str) -> (r: bool)
    ensures
        r == occurs_in(needle@, hay@),
{
    let h: Vec<char> = chars_of(hay);
    let n: Vec<char> = chars_of(needle);
    if n.len() > h.len() {
        return false;
    }
    let mut i: usize = 0;
    while i <= h.len() - n.len()
        invariant
            h@ == hay@,
            n@ == needle@,
            n@.len() <= h@.len(),
            i <= h@.len() - n@.len() + 1,
            forall|j: int| 0 <= j < i ==> !stands_at(h@, n@, j),
        decreases h@.len() - n@.len() + 1 - i,
    {
        if chars_stand_at(&h, &n, i) {
            return true;
        }
        if i == h.len() - n.len() {
            assert(forall|j: int| !stands_at(h@, n@, j));
            return false;
        }
        i += 1;
    }
    false
}

/// Whether `s` holds the character `c`.
pub fn contains_char(s: &str, c: char) -> (r: bool)
    ensures
        r == s@.contains(c),
{
    let v: Vec<char> = chars_of(s);
    let mut i: usize = 0;
    while i < v.len()
        invariant
            v@ == s@,
            i <= v@.len(),
            forall|k: int| 0 <= k < i ==> v@[k] != c,
        decreases v@.len() - i,
    {
        if v[i] == c {
            return true;
        }
        i += 1;
    }
    false
}

/// Whether `s` begins with `prefix`.
pub fn begins_with(s: &str, prefix: &str) -> (r: bool)
    ensures
        r == stands_at(s@, prefix@, 0),
{
    let h: Vec<char> = chars_of(s);
    let n: Vec<char> = chars_of(prefix);
    n.len() <= h.len() && chars_stand_at(&h, &n, 0)
}

/// Whether `s` ends with `suffix`.
pub open spec fn has_suffix(s: Seq<char>, suffix: Seq<char>) -> bool {
    stands_at(s, suffix, s.len() - suffix.len())
}

/// Whether `s` ends with `suffix`.
pub fn finishes_with(s: &str, suffix: &str) -> (r: bool)
    ensures
        r == has_suffix(s@, suffix@),
{
    let h: Vec<char> = chars_of(s);
    let n: Vec<char> = chars_of(suffix);
    n.len() <= h.len() && chars_stand_at(&h, &n, h.len() - n.len())
}

/// How many characters stand before the first `needle`; all of them where there is none.
pub open spec fn first_text_pos(hay: Seq<char>, needle: Seq<char>) -> nat
    decreases hay.len(),
{
    if hay.len() == 0 || stands_at(hay, needle, 0) {
        0
    } else {
        1 + first_text_pos(hay.drop_first(), needle)
    }
}

/// How many characters stand before the first `needle`; all of them where there is none.
pub fn find_text(hay: &Vec<char>, needle: &Vec<char>) -> (n: usize)
    ensures
        n == first_text_pos(hay@, needle@),
        n <= hay@.len(),
{
    let mut i: usize = 0;
    assert(hay@.skip(0) =~= hay@);
    while i < hay.len()
        invariant
            i <= hay@.len(),
            first_text_pos(hay@, needle@) == i + first_text_pos(hay@.skip(i as int), needle@),
        decreases hay@.len() - i,
    {
        let ghost rest = hay@.skip(i as int);
        assert(rest.drop_first() =~= hay@.skip(i + 1));
        if needle.len() <= hay.len() - i {
            assert(rest.subrange(0, needle@.len() as int) =~= hay@.subrange(
                i as int,
                i + needle@.len(),
            ));
            if chars_stand_at(hay, needle, i) {
                return i;
            }
        }
        i += 1;
    }
    i
}

/// `a` followed by `b`.
pub fn cat2(a: &str, b: &str) -> (r: String)
    ensures
        r@ == a@ + b@,
{
    let mut r: String = a.to_owned();
    r.append(b);
    r
}

/// `a`, `b` and `c`, one after the other.
pub fn cat3(a: &str, b: &str, c: &str) -> (r: String)
    ensures
        r@ == a@ + b@ + c@,
{
    let mut r: String = a.to_owned();
    r.append(b);
    r.append(c);
    r
}

/// The four texts, one after the other.
pub fn cat4(a: &str, b: &str, c: &str, d: &str) -> (r: String)
    ensures
        r@ == a@ + b@ + c@ + d@,
{
    let mut r: String = a.to_owned();
    r.append(b);
    r.append(c);
    r.append(d);
    r
}

/// The five texts, one after the other.
pub fn cat5(a: &str, b: &str, c: &str, d: &str, e: &str) -> (r: String)
    ensures
        r@ == a@ + b@ + c@ + d@ + e@,
{
    let mut r: String = cat4(a, b, c, d);
    r.append(e);
    r
}

/// The texts `parts` with `sep` between each two neighbours.
pub open spec fn joined(parts: Seq<Seq<char>>, sep: Seq<char>) -> Seq<char>
    decreases parts.len(),
{
    if parts.len() == 0 {
        Seq::empty()
    } else if parts.len() == 1 {
        parts[0]
    } else {
        joined(parts.drop_last(), sep) + sep + parts.last()
    }
}

/// The views of a list of texts.
pub open spec fn views(parts: Seq<String>) -> Seq<Seq<char>> {
    Seq::new(parts.len(), |i: int| parts[i]@)
}

/// The texts `parts` with `sep` between each two neighbours.
pub fn join(parts: &Vec<String>, sep: &str) -> (r: String)
    ensures
        r@ == joined(views(parts@), sep@),
{
    let mut r: String = String::new();
    let mut i: usize = 0;
    while i < parts.len()
        invariant
            i <= parts@.len(),
            r@ == joined(views(parts@).take(i as int), sep@),
        decreases parts@.len() - i,
    {
        assert(views(parts@).take(i + 1).drop_last() =~= views(parts@).take(i as int));
        assert(views(parts@).take(i + 1).last() == parts@[i as int]@);
        if i > 0 {
            r.append(sep);
        }
        r.append(parts[i].as_str());
        i += 1;
        assert(r@ =~= joined(views(parts@).take(i as int), sep@));
    }
    assert(views(parts@).take(i as int) =~= views(parts@));
    r
}

/// The words of `s`: its maximal runs of characters other than white space.
pub open spec fn words(s: Seq<char>) -> Seq<Seq<char>>
    decreases s.len(),
{
    if s.len() == 0 {
        Seq::empty()
    } else {
        let before = words(s.drop_last());
        let c = s.last();
        if is_white(c) {
            before
        } else if s.len() == 1 || is_white(s[s.len() - 2]) {
            before.push(seq![c])
        } else {
            before.update(before.len() - 1, before.last().push(c))
        }
    }
}

/// Whether `w` is a word: it is not empty and holds no white space.
pub open spec fn is_word(w: Seq<char>) -> bool {
    w.len() > 0 && forall|i: int| 0 <= i < w.len() ==> !is_white(#[trigger] w[i])
}

/// The words of a text are words, and there is one where it ends in a character other than white
/// space.
pub proof fn lemma_words(s: Seq<char>)
    ensures
        forall|i: int| 0 <= i < words(s).len() ==> is_word(#[trigger] words(s)[i]),
        s.len() > 0 && !is_white(s.last()) ==> words(s).len() > 0,
    decreases s.len(),
{
    if s.len() > 0 {
        let before = words(s.drop_last());
        let c = s.last();
        lemma_words(s.drop_last());
        if !is_white(c) && s.len() > 1 && !is_white(s[s.len() - 2]) {
            assert(s.drop_last().last() == s[s.len() - 2]);
            let grown = before.last().push(c);
            assert(is_word(before[before.len() - 1]));
            assert forall|i: int| 0 <= i < grown.len() implies !is_white(#[trigger] grown[i]) by {
                if i < before.last().len() {
                    assert(grown[i] == before.last()[i]);
                }
            }
        }
    }
}

/// A word behind white space, or at the beginning, is a word of the text.
proof fn lemma_word_behind(s: Seq<char>, w: Seq<char>)
    requires
        s.len() == 0 || is_white(s.last()),
        is_word(w),
    ensures
        words(s + w) == words(s).push(w),
    decreases w.len(),
{
    let all = s + w;
    let v = w.drop_last();
    assert(all.drop_last() =~= s + v);
    assert(!is_white(w[w.len() - 1]));
    if v.len() == 0 {
        assert(s + v =~= s);
        assert(w =~= seq![w.last()]);
    } else {
        assert forall|i: int| 0 <= i < v.len() implies !is_white(#[trigger] v[i]) by {
            assert(v[i] == w[i]);
        }
        lemma_word_behind(s, v);
        assert(all[all.len() - 2] == w[w.len() - 2]);
        assert(!is_white(w[w.len() - 2]));
        let before = words(s).push(v);
        assert(v.push(w.last()) =~= w);
        assert(before.update(before.len() - 1, before.last().push(w.last())) =~= words(s).push(w));
    }
}

/// Words that stand one space apart are the words of the text that they make up.
pub proof fn lemma_words_joined(parts: Seq<Seq<char>>)
    requires
        forall|i: int| 0 <= i < parts.len() ==> is_word(#[trigger] parts[i]),
    ensures
        words(joined(parts, " "@)) == parts,
    decreases parts.len(),
{
    reveal_strlit(" ");
    if parts.len() == 0 {
        assert(parts =~= Seq::empty());
    } else {
        let head = parts.drop_last();
        assert(is_word(parts[parts.len() - 1]));
        if parts.len() == 1 {
            lemma_word_behind(Seq::empty(), parts[0]);
            assert(Seq::<char>::empty() + parts[0] =~= parts[0]);
            assert(Seq::<Seq<char>>::empty().push(parts[0]) =~= parts);
        } else {
            assert forall|i: int| 0 <= i < head.len() implies is_word(#[trigger] head[i]) by {
                assert(head[i] == parts[i]);
            }
            lemma_words_joined(head);
            let before = joined(head, " "@);
            let spaced = before + " "@;
            assert(spaced.drop_last() =~= before);
            assert(spaced.last() == ' ');
            lemma_word_behind(spaced, parts.last());
            assert(head.push(parts.last()) =~= parts);
        }
    }
}

/// The words of `s`: its maximal runs of characters other than white space.
pub fn split_whitespace(s: &str) -> (r: Vec<String>)
    ensures
        views(r@) == words(s@),
{
    let v: Vec<char> = chars_of(s);
    let mut done: Vec<String> = Vec::new();
    let mut word: String = String::new();
    let mut in_word: bool = false;
    let mut i: usize = 0;
    while i < v.len()
        invariant
            i <= v@.len(),
            in_word == (i > 0 && !is_white(v@[i - 1])),
            words(v@.take(i as int)) == if in_word {
                views(done@).push(word@)
            } else {
                views(done@)
            },
            !in_word ==> word@.len() == 0,
        decreases v@.len() - i,
    {
        let c: char = v[i];
        let ghost upto = v@.take(i as int);
        let ghost next = v@.take(i + 1);
        assert(next.drop_last() =~= upto);
        assert(next.last() == c);
        assert(i > 0 ==> next[next.len() - 2] == v@[i - 1]);
        if is_white(c) {
            if in_word {
                let ghost before = done@;
                let ghost w = word@;
                done.push(word);
                assert(views(done@) =~= views(before).push(w));
                word = String::new();
            }
            in_word = false;
        } else {
            let ghost w = word@;
            word.push(c);
            if in_word {
                let ghost all = views(done@).push(w);
                assert(all.update(all.len() - 1, all.last().push(c)) =~= views(done@).push(word@));
            } else {
                assert(word@ =~= seq![c]);
            }
            in_word = true;
        }
        i += 1;
    }
    assert(v@.take(i as int) =~= v@);
    if in_word {
        let ghost before = done@;
        let ghost w = word@;
        done.push(word);
        assert(views(done@) =~= views(before).push(w));
    }
    done
}

/// How many decimal digits `s` holds.
pub open spec fn digit_count(s: Seq<char>) -> nat
    decreases s.len(),
{
    if s.len() == 0 {
        0
    } else {
        digit_count(s.drop_last()) + if is_digit(s.last()) {
            1nat
        } else {
            0nat
        }
    }
}

/// How many decimal digits `s` holds.
pub fn count_digits(s: &str) -> (n: usize)
    ensures
        n == digit_count(s@),
{
    let v: Vec<char> = chars_of(s);
    let mut n: usize = 0;
    let mut i: usize = 0;
    while i < v.len()
        invariant
            i <= v@.len(),
            n <= i,
            n == digit_count(v@.take(i as int)),
        decreases v@.len() - i,
    {
        assert(v@.take(i + 1).drop_last() =~= v@.take(i as int));
        if is_digit(v[i]) {
            n += 1;
        }
        i += 1;
    }
    assert(v@.take(i as int) =~= v@);
    n
}

/// Whether `s` holds a letter.
pub open spec fn has_letter(s: Seq<char>) -> bool {
    exists|i: int| 0 <= i < s.len() && unicode_alphabetic(#[trigger] s[i])
}

/// Whether `s` holds a letter.
pub fn holds_letter(s: &str) -> (r: bool)
    ensures
        r == has_letter(s@),
{
    let v: Vec<char> = chars_of(s);
    let mut i: usize = 0;
    while i < v.len()
        invariant
            v@ == s@,
            i <= v@.len(),
            forall|k: int| 0 <= k < i ==> !unicode_alphabetic(#[trigger] v@[k]),
        decreases v@.len() - i,
    {
        if v[i].is_alphabetic() {
            return true;
        }
        i += 1;
    }
    false
}

/// How many characters stand before the first `c`; all of them where there is none.
pub open spec fn first_pos(s: Seq<char>, c: char) -> nat
    decreases s.len(),
{
    if s.len() == 0 || s[0] == c {
        0
    } else {
        1 + first_pos(s.drop_first(), c)
    }
}

/// `first_pos` is the least position at which `c` stands.
pub proof fn lemma_first_pos(s: Seq<char>, c: char)
    ensures
        first_pos(s, c) <= s.len(),
        forall|k: int| 0 <= k < first_pos(s, c) ==> s[k] != c,
        first_pos(s, c) < s.len() ==> s[first_pos(s, c) as int] == c,
    decreases s.len(),
{
    if s.len() > 0 && s[0] != c {
        lemma_first_pos(s.drop_first(), c);
        assert forall|k: int| 0 <= k < first_pos(s, c) implies s[k] != c by {
            if k > 0 {
                assert(s[k] == s.drop_first()[k - 1]);
            }
        }
    }
}

/// How many characters stand before the first `c`; all of them where there is none.
pub fn find_char(v: &Vec<char>, c: char) -> (n: usize)
    ensures
        n == first_pos(v@, c),
{
    proof {
        lemma_first_pos(v@, c);
    }
    let mut i: usize = 0;
    while i < v.len() && v[i] != c
        invariant
            i <= first_pos(v@, c) <= v@.len(),
            first_pos(v@, c) < v@.len() ==> v@[first_pos(v@, c) as int] == c,
        decreases v@.len() - i,
    {
        i += 1;
    }
    i
}

/// The lines of `s`. A line ends at a line feed, which together with a carriage return before it
/// is not part of the line; the last line may lack its line feed.
pub open spec fn lines(s: Seq<char>) -> Seq<Seq<char>>
    decreases s.len(),
{
    if s.len() == 0 {
        Seq::empty()
    } else {
        let n = first_pos(s, '\n');
        proof {
            lemma_first_pos(s, '\n');
        }
        if n == s.len() {
            seq![s]
        } else {
            let line = s.take(n as int);
            let own = if n > 0 && line.last() == '\r' {
                line.drop_last()
            } else {
                line
            };
            seq![own] + lines(s.skip((n + 1) as int))
        }
    }
}

/// The lines of `s`.
pub fn split_lines(s: &str) -> (r: Vec<String>)
    ensures
        views(r@) == lines(s@),
{
    let v: Vec<char> = chars_of(s);
    let mut out: Vec<String> = Vec::new();
    let mut at: usize = 0;
    assert(v@.skip(0) =~= v@);
    assert(views(out@) + lines(v@.skip(0)) =~= lines(v@));
    while at < v.len()
        invariant
            at <= v@.len(),
            views(out@) + lines(v@.skip(at as int)) == lines(v@),
        decreases v@.len() - at,
    {
        let ghost rest = v@.skip(at as int);
        let mut end: usize = at;
        proof {
            lemma_first_pos(rest, '\n');
        }
        while end < v.len() && v[end] != '\n'
            invariant
                at <= end <= v@.len(),
                rest == v@.skip(at as int),
                end - at <= first_pos(rest, '\n'),
                first_pos(rest, '\n') <= rest.len(),
                forall|k: int| 0 <= k < first_pos(rest, '\n') ==> rest[k] != '\n',
                first_pos(rest, '\n') < rest.len() ==> rest[first_pos(rest, '\n') as int] == '\n',
            decreases v@.len() - end,
        {
            assert(rest[end - at] == v@[end as int]);
            end += 1;
        }
        assert(end < v@.len() ==> rest[end - at] == v@[end as int]);
        assert(end - at == first_pos(rest, '\n'));
        let ghost before = out@;
        if end == v.len() {
            let line: String = text_of_range(&v, at, end);
            assert(line@ =~= rest);
            out.push(line);
            assert(views(out@) =~= views(before) + seq![rest]);
            assert(views(out@) =~= lines(v@));
            at = end;
            assert(v@.skip(at as int) =~= Seq::empty());
            assert(views(out@) + lines(v@.skip(at as int)) =~= views(out@));
        } else {
            let to: usize = if end > at && v[end - 1] == '\r' {
                end - 1
            } else {
                end
            };
            let line: String = text_of_range(&v, at, to);
            let ghost n = first_pos(rest, '\n');
            let ghost whole = rest.take(n as int);
            let ghost own = if n > 0 && whole.last() == '\r' {
                whole.drop_last()
            } else {
                whole
            };
            assert(n > 0 ==> whole.last() == v@[end - 1]);
            assert(line@ =~= own);
            out.push(line);
            assert(views(out@) =~= views(before).push(own));
            assert(rest.skip((n + 1) as int) =~= v@.skip(end + 1));
            assert(lines(rest) == seq![own] + lines(rest.skip((n + 1) as int)));
            assert(views(before) + (seq![own] + lines(rest.skip((n + 1) as int))) =~= views(before).push(own)
                + lines(rest.skip((n + 1) as int)));
            at = end + 1;
        }
    }
    assert(v@.skip(at as int) =~= Seq::empty());
    assert(views(out@) + Seq::empty() =~= views(out@));
    out
}

/// The part of `s` whose UTF-8 encoding stands at the bytes `a..b` of the encoding of `s`.
pub open spec fn byte_range(s: Seq<char>, a: int, b: int) -> Seq<char> {
    decode_utf8(encode_utf8(s).subrange(a, b))
}

/// Whether the bytes `a..b` of the encoding of `s` are whole characters.
pub open spec fn char_range(s: Seq<char>, a: int, b: int) -> bool {
    &&& 0 <= a <= b <= encode_utf8(s).len()
    &&& is_char_boundary(encode_utf8(s), a)
    &&& is_char_boundary(encode_utf8(s), b)
}

/// How many bytes the UTF-8 encoding of `s` has.
pub open spec fn utf8_len(s: Seq<char>) -> nat {
    encode_utf8(s).len()
}

/// How many bytes the UTF-8 encoding of `s` has.
pub fn byte_len(s: &str) -> (n: usize)
    ensures
        n == utf8_len(s@),
{
    s.as_bytes().len()
}

/// A character boundary of a byte sequence is one of every prefix that it lies in.
pub proof fn lemma_boundary_in_prefix(bytes: Seq<u8>, a: int, b: int)
    requires
        valid_utf8(bytes),
        is_char_boundary(bytes, a),
        is_char_boundary(bytes, b),
        0 <= a <= b <= bytes.len(),
    ensures
        valid_utf8(bytes.subrange(0, b)),
        is_char_boundary(bytes.subrange(0, b), a),
{
    valid_utf8_split(bytes, b);
    let pre = bytes.subrange(0, b);
    if a < b {
        assert(pre[a] == bytes[a]);
        is_char_boundary_iff_not_is_continuation_byte(bytes, a);
        is_char_boundary_iff_not_is_continuation_byte(pre, a);
    } else {
        is_char_boundary_start_end_of_seq(pre);
    }
}

/// The encoding of two texts in a row is that of the first followed by that of the second.
pub proof fn lemma_utf8_concat(a: Seq<char>, b: Seq<char>)
    ensures
        encode_utf8(a + b) == encode_utf8(a) + encode_utf8(b),
    decreases a.len(),
{
    if a.len() == 0 {
        assert(a + b =~= b);
        assert(encode_utf8(a) + encode_utf8(b) =~= encode_utf8(b));
    } else {
        lemma_utf8_concat(a.drop_first(), b);
        assert((a + b).drop_first() =~= a.drop_first() + b);
        assert((a + b)[0] == a[0]);
        assert(encode_utf8(a + b) =~= encode_utf8(a) + encode_utf8(b));
    }
}

/// A range of whole characters of a text is one of any text that holds it, further on by what
/// stands before it.
pub proof fn lemma_char_range_shift(pre: Seq<char>, s: Seq<char>, post: Seq<char>, a: int, b: int)
    requires
        char_range(s, a, b),
    ensures
        char_range(pre + s + post, utf8_len(pre) + a, utf8_len(pre) + b),
        utf8_len(pre + s + post) == utf8_len(pre) + utf8_len(s) + utf8_len(post),
{
    lemma_utf8_concat(pre + s, post);
    lemma_utf8_concat(pre, s);
    lemma_boundary_shift(pre, s, post, a);
    lemma_boundary_shift(pre, s, post, b);
}

/// A character boundary of a text is one of any text that holds it, further on by what stands
/// before it.
proof fn lemma_boundary_shift(pre: Seq<char>, s: Seq<char>, post: Seq<char>, a: int)
    requires
        0 <= a <= utf8_len(s),
        is_char_boundary(encode_utf8(s), a),
    ensures
        is_char_boundary(encode_utf8(pre + s + post), utf8_len(pre) + a),
{
    let whole = encode_utf8(pre + s + post);
    let x = encode_utf8(pre);
    let y = encode_utf8(s);
    let z = encode_utf8(post);
    lemma_utf8_concat(pre + s, post);
    lemma_utf8_concat(pre, s);
    encode_utf8_valid_utf8(pre + s + post);
    encode_utf8_valid_utf8(s);
    encode_utf8_valid_utf8(post);
    let at = x.len() + a;
    if at == whole.len() {
        is_char_boundary_start_end_of_seq(whole);
    } else if a < y.len() {
        assert(whole[at] == y[a]);
        is_char_boundary_iff_not_is_continuation_byte(y, a);
        is_char_boundary_iff_not_is_continuation_byte(whole, at);
    } else {
        assert(whole[at] == z[0]);
        is_char_boundary_start_end_of_seq(z);
        is_char_boundary_iff_not_is_continuation_byte(z, 0);
        is_char_boundary_iff_not_is_continuation_byte(whole, at);
    }
}

/// The part of `s` that stands at the bytes `a..b` of its encoding.
pub fn slice_bytes<'a>(s: &'a str, a: usize, b: usize) -> (r: &'a str)
    requires
        char_range(s@, a as int, b as int),
    ensures
        r@ == byte_range(s@, a as int, b as int),
        encode_utf8(r@) == encode_utf8(s@).subrange(a as int, b as int),
{
    let ghost bytes = encode_utf8(s@);
    proof {
        encode_utf8_valid_utf8(s@);
        lemma_boundary_in_prefix(bytes, a as int, b as int);
    }
    let head: &str = s.split_at(b).0;
    let r: &str = head.split_at(a).1;
    proof {
        assert(encode_utf8(r@) =~= bytes.subrange(a as int, b as int));
        encode_utf8_decode_utf8(r@);
    }
    r
}

/// The character of a decimal digit.
pub open spec fn digit_char(d: nat) -> char {
    (d + 48) as char
}

/// A number in decimal digits.
pub open spec fn decimal(n: nat) -> Seq<char>
    decreases n,
{
    if n < 10 {
        seq![digit_char(n)]
    } else {
        decimal(n / 10).push(digit_char(n % 10))
    }
}

/// A number in decimal digits, filled up with zeros on the left to `width` characters.
pub open spec fn zero_filled(n: nat, width: nat) -> Seq<char> {
    let d = decimal(n);
    if d.len() >= width {
        d
    } else {
        Seq::new((width - d.len()) as nat, |i: int| '0') + d
    }
}

/// A number in decimal digits.
pub fn decimal_text(n: u64) -> (r: String)
    ensures
        r@ == decimal(n as nat),
    decreases n,
{
    let d: u8 = (n % 10) as u8;
    let c: char = (d + 48) as char;
    if n < 10 {
        let mut r: String = String::new();
        r.push(c);
        assert(r@ =~= decimal(n as nat));
        r
    } else {
        let mut r: String = decimal_text(n / 10);
        r.push(c);
        r
    }
}

/// A number in decimal digits, filled up with zeros on the left to `width` characters.
pub fn zero_filled_text(n: u64, width: usize) -> (r: String)
    ensures
        r@ == zero_filled(n as nat, width as nat),
{
    let digits: String = decimal_text(n);
    let v: Vec<char> = chars_of(digits.as_str());
    let mut r: String = String::new();
    if v.len() >= width {
        return digits;
    }
    let missing: usize = width - v.len();
    let mut i: usize = 0;
    while i < missing
        invariant
            i <= missing,
            r@.len() == i,
            forall|k: int| 0 <= k < i ==> r@[k] == '0',
        decreases missing - i,
    {
        r.push('0');
        i += 1;
    }
    r.append(digits.as_str());
    assert(r@ =~= zero_filled(n as nat, width as nat));
    r
}

/// A number with its sign, in decimal digits.
pub open spec fn signed_decimal(n: int) -> Seq<char> {
    if n < 0 {
        seq!['-'] + decimal((-n) as nat)
    } else {
        decimal(n as nat)
    }
}

/// A number with its sign, in decimal digits.
pub fn signed_decimal_text(n: i32) -> (r: String)
    ensures
        r@ == signed_decimal(n as int),
{
    if n < 0 {
        let m: i64 = -(n as i64);
        let digits: String = decimal_text(m as u64);
        let mut r: String = String::new();
        r.push('-');
        r.append(digits.as_str());
        assert(r@ =~= signed_decimal(n as int));
        r
    } else {
        decimal_text(n as u64)
    }
}

/// Whether `s` is a number in decimal digits.
pub open spec fn all_digits(s: Seq<char>) -> bool {
    s.len() > 0 && forall|i: int| 0 <= i < s.len() ==> is_digit(#[trigger] s[i])
}

/// The number that decimal digits spell.
pub open spec fn digits_value(s: Seq<char>) -> nat
    decreases s.len(),
{
    if s.len() == 0 {
        0
    } else {
        digits_value(s.drop_last()) * 10 + ((s.last() as u32) - 48) as nat
    }
}

/// Zeros on the left do not change the number that digits spell.
pub proof fn lemma_leading_zeros(count: nat, digits: Seq<char>)
    ensures
        digits_value(Seq::new(count, |i: int| '0') + digits) == digits_value(digits),
    decreases count + digits.len(),
{
    let zeros = Seq::new(count, |i: int| '0');
    let all = zeros + digits;
    if digits.len() > 0 {
        assert(all.drop_last() =~= zeros + digits.drop_last());
        lemma_leading_zeros(count, digits.drop_last());
    } else if count > 0 {
        let fewer = Seq::new((count - 1) as nat, |i: int| '0');
        assert(all.drop_last() =~= fewer + digits);
        lemma_leading_zeros((count - 1) as nat, digits);
    } else {
        assert(all =~= digits);
    }
}

/// The number that the decimal digits of `v` spell, if they are digits and spell one of at most
/// `max`.
pub fn parse_digits(v: &Vec<char>, max: u64) -> (r: Option<u64>)
    requires
        max < u64::MAX / 16,
    ensures
        match r {
            Some(n) => all_digits(v@) && n == digits_value(v@) && n <= max,
            None => !all_digits(v@) || digits_value(v@) > max,
        },
{
    if v.len() == 0 {
        return None;
    }
    let mut n: u64 = 0;
    let mut over: bool = false;
    let mut i: usize = 0;
    while i < v.len()
        invariant
            i <= v@.len(),
            max < u64::MAX / 16,
            forall|k: int| 0 <= k < i ==> is_digit(#[trigger] v@[k]),
            !over ==> n == digits_value(v@.take(i as int)) && n <= max,
            over ==> digits_value(v@.take(i as int)) > max,
        decreases v@.len() - i,
    {
        if !is_digit(v[i]) {
            return None;
        }
        assert(v@.take(i + 1).drop_last() =~= v@.take(i as int));
        assert(v@.take(i + 1).last() == v@[i as int]);
        let d: u8 = v[i] as u8 - 48;
        if !over {
            n = n * 10 + d as u64;
            if n > max {
                over = true;
            }
        }
        i += 1;
    }
    assert(v@.take(i as int) =~= v@);
    if over {
        None
    } else {
        Some(n)
    }
}

/// What is trimmed: of a text that has characters of the class before and behind a core that neither
/// begins nor ends with one, the core is left.
pub proof fn lemma_trimmed(lead: Seq<char>, core: Seq<char>, tail: Seq<char>, class: CharClass)
    requires
        forall|i: int| 0 <= i < lead.len() ==> class.has(#[trigger] lead[i]),
        forall|i: int| 0 <= i < tail.len() ==> class.has(#[trigger] tail[i]),
        core.len() > 0,
        !class.has(core[0]),
        !class.has(core.last()),
    ensures
        trimmed(lead + core + tail, class) == core,
    decreases lead.len() + tail.len(),
{
    if lead.len() > 0 {
        let s = lead + core + tail;
        let fewer = lead.drop_first();
        assert(class.has(lead[0]));
        assert(s.drop_first() =~= fewer + core + tail);
        assert forall|i: int| 0 <= i < fewer.len() implies class.has(#[trigger] fewer[i]) by {
            assert(fewer[i] == lead[i + 1]);
        }
        lemma_trimmed(fewer, core, tail, class);
    } else {
        assert(lead + core + tail =~= core + tail);
        assert(trimmed_start(core + tail, class) == core + tail);
        lemma_trimmed_tail(core, tail, class);
    }
}

/// What is trimmed at the end of a text.
proof fn lemma_trimmed_tail(core: Seq<char>, tail: Seq<char>, class: CharClass)
    requires
        forall|i: int| 0 <= i < tail.len() ==> class.has(#[trigger] tail[i]),
        core.len() > 0,
        !class.has(core.last()),
    ensures
        trimmed_end(core + tail, class) == core,
    decreases tail.len(),
{
    if tail.len() > 0 {
        let fewer = tail.drop_last();
        assert(class.has(tail[tail.len() - 1]));
        assert((core + tail).drop_last() =~= core + fewer);
        assert((core + tail).last() == tail.last());
        assert forall|i: int| 0 <= i < fewer.len() implies class.has(#[trigger] fewer[i]) by {
            assert(fewer[i] == tail[i]);
        }
        lemma_trimmed_tail(core, fewer, class);
    } else {
        assert(core + tail =~= core);
    }
}

/// Nothing is left of a text that holds only characters of the class.
pub proof fn lemma_trimmed_to_nothing(s: Seq<char>, class: CharClass)
    requires
        forall|i: int| 0 <= i < s.len() ==> class.has(#[trigger] s[i]),
    ensures
        trimmed(s, class).len() == 0,
    decreases s.len(),
{
    if s.len() > 0 {
        let fewer = s.drop_first();
        assert(class.has(s[0]));
        assert forall|i: int| 0 <= i < fewer.len() implies class.has(#[trigger] fewer[i]) by {
            assert(fewer[i] == s[i + 1]);
        }
        lemma_trimmed_to_nothing(fewer, class);
    }
}

/// A line and what stands behind its line feed: the line comes first, without a carriage return that
/// ends it, and then come the lines of the rest.
pub proof fn lemma_lines_in_turn(line: Seq<char>, rest: Seq<char>)
    requires
        !line.contains('\n'),
    ensures
        lines(line.push('\n') + rest) == seq![
            if line.len() > 0 && line.last() == '\r' {
                line.drop_last()
            } else {
                line
            },
        ] + lines(rest),
        line.len() > 0 ==> lines(line) == seq![line],
{
    let s = line.push('\n') + rest;
    lemma_first_pos(s, '\n');
    let n = first_pos(s, '\n') as int;
    assert(s[line.len() as int] == '\n');
    assert(n <= line.len());
    if n < line.len() {
        assert(line[n] == s[n]);
        assert(line.contains('\n'));
    }
    assert(s.take(n) =~= line);
    assert(s.skip(n + 1) =~= rest);
    lemma_first_pos(line, '\n');
    let m = first_pos(line, '\n') as int;
    if m < line.len() {
        assert(line.contains(line[m]));
    }
}

} // verus!
