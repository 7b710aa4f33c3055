//! Text primitives over sequences of characters: searching, trimming, joining and
//! ordering. Every executable function here states its result over the spec
//! functions of this module, which are defined on `Seq<char>`.

use vstd::prelude::*;
use vstd::string::*;

verus! {

/// The characters of `s`, in order.
pub fn chars_of(s: &str) -> (v: Vec<char>)
    ensures
        v@ == s@,
{
    let mut v: Vec<char> = Vec::new();
    for c in it: s.chars()
        invariant
            it.seq() == s@,
            v@ =~= s@.take(it.index()),
    {
        v.push(c);
    }
    assert(s@.take(s@.len() as int) =~= s@);
    v
}

/// The characters `s[from..to]` of a string slice, as a slice of the same string.
pub fn slice_of<'a>(s: &'a str, from: usize, to: usize) -> (r: &'a str)
    requires
        from <= to <= s@.len(),
    ensures
        r@ == s@.subrange(from as int, to as int),
{
    s.substring_char(from, to)
}

/// Whether two texts hold the same characters.
pub fn same_chars(a: &Vec<char>, b: &Vec<char>) -> (r: bool)
    ensures
        r == (a@ == b@),
{
    if a.len() != b.len() {
        return false;
    }
    let mut i: usize = 0;
    while i < a.len()
        invariant
            i <= a.len(),
            a.len() == b.len(),
            a@.take(i as int) == b@.take(i as int),
        decreases a.len() - i,
    {
        if a[i] != b[i] {
            return false;
        }
        assert(a@.take(i + 1) =~= a@.take(i as int).push(a@[i as int]));
        assert(b@.take(i + 1) =~= b@.take(i as int).push(b@[i as int]));
        i += 1;
    }
    assert(a@.take(a.len() as int) =~= a@);
    assert(b@.take(b.len() as int) =~= b@);
    true
}

/// Whether two string slices hold the same characters.
pub fn same_text(a: &str, b: &str) -> (r: bool)
    ensures
        r == (a@ == b@),
{
    let x = chars_of(a);
    let y = chars_of(b);
    same_chars(&x, &y)
}

/// `pat` stands in `s` at index `i`.
pub open spec fn matches_at(s: Seq<char>, pat: Seq<char>, i: int) -> bool {
    &&& 0 <= i
    &&& i + pat.len() <= s.len()
    &&& s.subrange(i, i + pat.len()) == pat
}

/// Whether `pat` stands in `s` at index `i`.
pub fn occurs_at(s: &Vec<char>, pat: &Vec<char>, i: usize) -> (r: bool)
    ensures
        r == matches_at(s@, pat@, i as int),
{
    if i > s.len() || pat.len() > s.len() - i {
        return false;
    }
    let mut k: usize = 0;
    while k < pat.len()
        invariant
            k <= pat.len(),
            i + pat.len() <= s.len(),
            s@.subrange(i as int, i + k) == pat@.take(k as int),
        decreases pat.len() - k,
    {
        if s[i + k] != pat[k] {
            assert(s@.subrange(i as int, i + pat.len())[k as int] != pat@[k as int]);
            return false;
        }
        assert(s@.subrange(i as int, i + k + 1) =~= s@.subrange(i as int, i + k).push(
            s@[i + k],
        ));
        assert(pat@.take(k + 1) =~= pat@.take(k as int).push(pat@[k as int]));
        k += 1;
    }
    assert(pat@.take(pat.len() as int) =~= pat@);
    true
}

/// `s` begins with `pat`.
pub open spec fn has_prefix(s: Seq<char>, pat: Seq<char>) -> bool {
    matches_at(s, pat, 0)
}

/// Whether `s` begins with `pat`.
pub fn starts_with(s: &str, pat: &str) -> (r: bool)
    ensures
        r == has_prefix(s@, pat@),
{
    let sc = chars_of(s);
    let pc = chars_of(pat);
    occurs_at(&sc, &pc, 0)
}

/// The least index at or after `from` where `pat` stands in `s`.
pub open spec fn first_match_from(s: Seq<char>, pat: Seq<char>, from: int) -> Option<int>
    decreases s.len() - from,
{
    if from < 0 || from + pat.len() > s.len() {
        None
    } else if matches_at(s, pat, from) {
        Some(from)
    } else if from >= s.len() {
        None
    } else {
        first_match_from(s, pat, from + 1)
    }
}

/// The least index where `pat` stands in `s`.
pub open spec fn first_match(s: Seq<char>, pat: Seq<char>) -> Option<int> {
    first_match_from(s, pat, 0)
}

/// What `first_match_from` finds is an occurrence, and the first one.
pub proof fn lemma_first_match_from(s: Seq<char>, pat: Seq<char>, from: int)
    requires
        0 <= from,
    ensures
        (match first_match_from(s, pat, from) {
            Some(i) => from <= i && matches_at(s, pat, i) && forall|j: int|
                from <= j < i ==> !matches_at(s, pat, j),
            None => forall|j: int| from <= j ==> !matches_at(s, pat, j),
        }),
    decreases s.len() - from,
{
    if from + pat.len() > s.len() {
    } else if matches_at(s, pat, from) {
    } else if from >= s.len() {
    } else {
        lemma_first_match_from(s, pat, from + 1);
    }
}

/// The first index at or after `from` where `pat` stands in `s`, if there is one.
pub fn find_from(s: &Vec<char>, pat: &Vec<char>, from: usize) -> (r: Option<usize>)
    ensures
        r is Some == first_match_from(s@, pat@, from as int) is Some,
        r matches Some(i) ==> first_match_from(s@, pat@, from as int) == Some(i as int),
{
    if pat.len() > s.len() || from > s.len() - pat.len() {
        return None;
    }
    let last: usize = s.len() - pat.len();
    let mut i: usize = from;
    loop
        invariant
            from <= i <= last,
            last == s.len() - pat.len(),
            first_match_from(s@, pat@, from as int) == first_match_from(s@, pat@, i as int),
        decreases last - i,
    {
        if occurs_at(s, pat, i) {
            return Some(i);
        }
        if i == last {
            assert(first_match_from(s@, pat@, i + 1) is None);
            return None;
        }
        i += 1;
    }
}

/// A class of characters that trimming removes.
#[derive(Clone, Copy, Debug)]
pub enum CharClass {
    /// One given character.
    Is(char),
    /// The characters with the Unicode property `White_Space`.
    Whitespace,
}

/// The characters with the Unicode property `White_Space`.
pub open spec fn is_whitespace(c: char) -> bool {
    let u = c as u32;
    ||| 0x09 <= u <= 0x0D
    ||| u == 0x20
    ||| u == 0x85
    ||| u == 0xA0
    ||| u == 0x1680
    ||| 0x2000 <= u <= 0x200A
    ||| u == 0x2028
    ||| u == 0x2029
    ||| u == 0x202F
    ||| u == 0x205F
    ||| u == 0x3000
}

impl CharClass {
    /// Membership of `c` in the class.
    pub open spec fn contains(self, c: char) -> bool {
        match self {
            CharClass::Is(x) => c == x,
            CharClass::Whitespace => is_whitespace(c),
        }
    }

    /// Whether `c` is in the class.
    pub fn has(&self, c: char) -> (r: bool)
        ensures
            r == self.contains(c),
    {
        match self {
            CharClass::Is(x) => c == *x,
            CharClass::Whitespace => {
                let u: u32 = c as u32;
                (0x09 <= u && u <= 0x0D) || u == 0x20 || u == 0x85 || u == 0xA0 || u == 0x1680
                    || (0x2000 <= u && u <= 0x200A) || u == 0x2028 || u == 0x2029 || u == 0x202F
                    || u == 0x205F || u == 0x3000
            },
        }
    }
}

/// The least index at or after `i` whose character is outside `class`, or the length.
pub open spec fn first_outside(s: Seq<char>, class: CharClass, i: int) -> int
    decreases s.len() - i,
{
    if i < 0 || i >= s.len() {
        s.len() as int
    } else if !class.contains(s[i]) {
        i
    } else {
        first_outside(s, class, i + 1)
    }
}

/// The least end `j <= upto` such that every character of `s[j..upto]` is in `class`.
pub open spec fn last_outside(s: Seq<char>, class: CharClass, upto: int) -> int
    decreases upto,
{
    if upto <= 0 || upto > s.len() {
        0
    } else if !class.contains(s[upto - 1]) {
        upto
    } else {
        last_outside(s, class, upto - 1)
    }
}

/// `s` without its leading characters of `class`.
pub open spec fn trim_start(s: Seq<char>, class: CharClass) -> Seq<char> {
    s.subrange(first_outside(s, class, 0), s.len() as int)
}

/// `s` without its trailing characters of `class`.
pub open spec fn trim_end(s: Seq<char>, class: CharClass) -> Seq<char> {
    s.subrange(0, last_outside(s, class, s.len() as int))
}

/// `s` without its leading and trailing characters of `class`.
pub open spec fn trim(s: Seq<char>, class: CharClass) -> Seq<char> {
    trim_end(trim_start(s, class), class)
}

/// `first_outside` stays within the text, skips only characters of the class and stops
/// at one outside it.
pub proof fn lemma_first_outside(s: Seq<char>, class: CharClass, i: int)
    requires
        0 <= i <= s.len(),
    ensures
        i <= first_outside(s, class, i) <= s.len(),
        forall|k: int| i <= k < first_outside(s, class, i) ==> class.contains(s[k]),
        first_outside(s, class, i) < s.len() ==> !class.contains(s[first_outside(s, class, i)]),
    decreases s.len() - i,
{
    if i < s.len() && class.contains(s[i]) {
        lemma_first_outside(s, class, i + 1);
    }
}

/// `last_outside` stays within the text, skips only characters of the class and stops
/// behind one outside it.
pub proof fn lemma_last_outside(s: Seq<char>, class: CharClass, upto: int)
    requires
        0 <= upto <= s.len(),
    ensures
        0 <= last_outside(s, class, upto) <= upto,
        forall|k: int| last_outside(s, class, upto) <= k < upto ==> class.contains(s[k]),
        last_outside(s, class, upto) > 0 ==> !class.contains(
            s[last_outside(s, class, upto) - 1],
        ),
    decreases upto,
{
    if upto > 0 && class.contains(s[upto - 1]) {
        lemma_last_outside(s, class, upto - 1);
    }
}

/// The index where `trim_end` ends, never below `floor`.
pub fn skip_trailing(s: &Vec<char>, class: CharClass, floor: usize, upto: usize) -> (r: usize)
    requires
        floor <= upto <= s.len(),
    ensures
        floor <= r <= upto,
        r - floor == last_outside(s@.subrange(floor as int, upto as int), class, upto - floor),
{
    let ghost part = s@.subrange(floor as int, upto as int);
    let mut j: usize = upto;
    while j > floor && class.has(s[j - 1])
        invariant
            floor <= j <= upto <= s.len(),
            part == s@.subrange(floor as int, upto as int),
            last_outside(part, class, upto - floor) == last_outside(part, class, j - floor),
        decreases j,
    {
        assert(part[j - 1 - floor] == s@[j - 1]);
        j -= 1;
    }
    proof {
        if j > floor {
            assert(part[j - 1 - floor] == s@[j - 1]);
        }
    }
    j
}

/// Trimming never lengthens a text.
pub proof fn lemma_trim_is_shorter(s: Seq<char>, class: CharClass)
    ensures
        trim(s, class).len() <= s.len(),
        trim_start(s, class).len() <= s.len(),
        trim_end(s, class).len() <= s.len(),
{
    lemma_first_outside(s, class, 0);
    lemma_last_outside(s, class, s.len() as int);
    let rest = trim_start(s, class);
    lemma_last_outside(rest, class, rest.len() as int);
}

/// A text that neither begins nor ends with a character of `class`.
pub open spec fn is_trimmed(s: Seq<char>, class: CharClass) -> bool {
    s.len() == 0 || (!class.contains(s[0]) && !class.contains(s.last()))
}

/// What trimming yields is trimmed, and trimming leaves a trimmed text as it is.
pub proof fn lemma_trim_is_trimmed(s: Seq<char>, class: CharClass)
    ensures
        is_trimmed(trim(s, class), class),
        is_trimmed(s, class) ==> trim(s, class) == s,
{
    lemma_first_outside(s, class, 0);
    let rest = trim_start(s, class);
    lemma_last_outside(rest, class, rest.len() as int);
    if is_trimmed(s, class) {
        assert(rest =~= s);
        assert(trim_end(s, class) =~= s);
    }
}

/// Trimming a subrange of a text is a subrange of that text.
pub proof fn lemma_trim_subrange(s: Seq<char>, class: CharClass, from: int, to: int)
    requires
        0 <= from <= to <= s.len(),
    ensures
        ({
            let part = s.subrange(from, to);
            let a = first_outside(part, class, 0);
            let b = last_outside(part.subrange(a, part.len() as int), class, part.len() - a);
            &&& 0 <= a <= part.len()
            &&& 0 <= b <= part.len() - a
            &&& trim(part, class) == s.subrange(from + a, from + a + b)
        }),
{
    let part = s.subrange(from, to);
    lemma_first_outside(part, class, 0);
    let a = first_outside(part, class, 0);
    let rest = part.subrange(a, part.len() as int);
    lemma_last_outside(rest, class, rest.len() as int);
    let b = last_outside(rest, class, rest.len() as int);
    assert(rest.subrange(0, b) =~= s.subrange(from + a, from + a + b));
}

/// The slice of `s` between `from` and `to`, trimmed of `class` on both sides.
pub fn trimmed_slice<'a>(
    s: &'a str,
    chars: &Vec<char>,
    class: CharClass,
    from: usize,
    to: usize,
) -> (r: &'a str)
    requires
        chars@ == s@,
        from <= to <= s@.len(),
    ensures
        r@ == trim(s@.subrange(from as int, to as int), class),
{
    let ghost part = s@.subrange(from as int, to as int);
    let mut a: usize = from;
    while a < to && class.has(chars[a])
        invariant
            from <= a <= to <= chars.len(),
            chars@ == s@,
            part == s@.subrange(from as int, to as int),
            first_outside(part, class, 0) == first_outside(part, class, a - from),
        decreases to - a,
    {
        assert(part[a - from] == chars@[a as int]);
        a += 1;
    }
    proof {
        if a < to {
            assert(part[a - from] == chars@[a as int]);
        }
        lemma_trim_subrange(s@, class, from as int, to as int);
        assert(part.subrange(a - from, part.len() as int) =~= s@.subrange(a as int, to as int));
    }
    let b = skip_trailing(chars, class, a, to);
    slice_of(s, a, b)
}

/// Removing prefixes never lengthens a text, and shortens one that begins with a
/// The parts, with `sep` between each two neighbours.
pub open spec fn joined(parts: Seq<Seq<char>>, sep: Seq<char>) -> Seq<char>
    decreases parts.len(),
{
    if parts.len() == 0 {
        Seq::empty()
    } else if parts.len() == 1 {
        parts[0]
    } else {
        joined(parts.drop_last(), sep) + sep + parts.last()
    }
}

/// Joining two parts or more is the first part, the separator, and the others
/// joined.
pub proof fn lemma_joined_first(parts: Seq<Seq<char>>, sep: Seq<char>)
    requires
        parts.len() >= 2,
    ensures
        joined(parts, sep) == parts[0] + sep + joined(parts.skip(1), sep),
    decreases parts.len(),
{
    let rest = parts.skip(1);
    if parts.len() == 2 {
        assert(parts.drop_last() =~= seq![parts[0]]);
        assert(joined(parts.drop_last(), sep) == parts[0]);
        assert(rest =~= seq![parts[1]]);
        assert(joined(rest, sep) == parts[1]);
    } else {
        lemma_joined_first(parts.drop_last(), sep);
        assert(parts.drop_last().skip(1) =~= rest.drop_last());
        assert(parts.drop_last()[0] == parts[0]);
        assert(rest.last() == parts.last());
        assert(parts[0] + sep + joined(rest.drop_last(), sep) + sep + parts.last() =~= parts[0]
            + sep + (joined(rest.drop_last(), sep) + sep + rest.last()));
    }
}

/// The views of a vector of strings.
pub open spec fn views(v: Seq<String>) -> Seq<Seq<char>> {
    Seq::new(v.len(), |i: int| v[i]@)
}

/// The parts, with `sep` between each two neighbours.
pub fn join(parts: &Vec<String>, sep: &str) -> (r: String)
    ensures
        r@ == joined(views(parts@), sep@),
{
    let mut out = String::new();
    let mut i: usize = 0;
    while i < parts.len()
        invariant
            i <= parts.len(),
            out@ == joined(views(parts@).take(i as int), sep@),
        decreases parts.len() - i,
    {
        proof {
            let now = views(parts@).take(i + 1);
            assert(now.drop_last() =~= views(parts@).take(i as int));
            assert(now.last() == parts@[i as int]@);
            if i == 0 {
                assert(out@ + parts@[0]@ =~= parts@[0]@);
            }
        }
        if i > 0 {
            out.append(sep);
        }
        out.append(parts[i].as_str());
        i += 1;
    }
    assert(views(parts@).take(parts.len() as int) =~= views(parts@));
    out
}

/// `s` ends with `pat`.
pub open spec fn has_suffix(s: Seq<char>, pat: Seq<char>) -> bool {
    matches_at(s, pat, s.len() - pat.len())
}

/// Whether `s` ends with `pat`.
pub fn ends_with(s: &str, pat: &str) -> (r: bool)
    ensures
        r == has_suffix(s@, pat@),
{
    let sc = chars_of(s);
    let pc = chars_of(pat);
    if pc.len() > sc.len() {
        return false;
    }
    occurs_at(&sc, &pc, sc.len() - pc.len())
}

/// The lexicographic order of texts by the code points of their characters: `a`
/// comes before `b`.
pub open spec fn lex_less(a: Seq<char>, b: Seq<char>) -> bool
    decreases a.len(),
{
    if b.len() == 0 {
        false
    } else if a.len() == 0 {
        true
    } else if a[0] != b[0] {
        (a[0] as u32) < (b[0] as u32)
    } else {
        lex_less(a.drop_first(), b.drop_first())
    }
}

/// No text comes before itself.
pub proof fn lemma_lex_irreflexive(a: Seq<char>)
    ensures
        !lex_less(a, a),
    decreases a.len(),
{
    if a.len() > 0 {
        lemma_lex_irreflexive(a.drop_first());
    }
}

/// The order is transitive.
pub proof fn lemma_lex_transitive(a: Seq<char>, b: Seq<char>, c: Seq<char>)
    requires
        lex_less(a, b),
        lex_less(b, c),
    ensures
        lex_less(a, c),
    decreases a.len(),
{
    if a.len() > 0 && b.len() > 0 && c.len() > 0 {
        if a[0] == b[0] && b[0] == c[0] {
            lemma_lex_transitive(a.drop_first(), b.drop_first(), c.drop_first());
        }
    }
}

/// Of two different texts one comes before the other.
pub proof fn lemma_lex_total(a: Seq<char>, b: Seq<char>)
    ensures
        a == b || lex_less(a, b) || lex_less(b, a),
    decreases a.len(),
{
    if a.len() == 0 || b.len() == 0 {
        if a.len() == 0 && b.len() == 0 {
            assert(a =~= b);
        }
    } else if a[0] == b[0] {
        lemma_lex_total(a.drop_first(), b.drop_first());
        if a.drop_first() == b.drop_first() {
            assert(a =~= seq![a[0]] + a.drop_first());
            assert(b =~= seq![b[0]] + b.drop_first());
        }
    } else {
        vstd::utf8::char_u32_cast(a[0], a[0] as u32);
        vstd::utf8::char_u32_cast(b[0], b[0] as u32);
    }
}

/// Whether `a` comes before `b` in the lexicographic order.
pub fn text_less(a: &Vec<char>, b: &Vec<char>) -> (r: bool)
    ensures
        r == lex_less(a@, b@),
{
    let mut i: usize = 0;
    assert(a@.skip(0) =~= a@);
    assert(b@.skip(0) =~= b@);
    loop
        invariant
            i <= a.len(),
            i <= b.len(),
            lex_less(a@, b@) == lex_less(a@.skip(i as int), b@.skip(i as int)),
        decreases a.len() - i,
    {
        if i >= b.len() {
            return false;
        }
        if i >= a.len() {
            return true;
        }
        assert(a@.skip(i as int)[0] == a@[i as int]);
        assert(b@.skip(i as int)[0] == b@[i as int]);
        if a[i] != b[i] {
            return (a[i] as u32) < (b[i] as u32);
        }
        assert(a@.skip(i as int).drop_first() =~= a@.skip(i + 1));
        assert(b@.skip(i as int).drop_first() =~= b@.skip(i + 1));
        i += 1;
    }
}

} // verus!
