//! Splitting the text of sibling expressions at its top-level delimiters.
//!
//! The scan keeps a nesting depth over `(` `)` and `[` `]`, a quoted state that `"`
//! toggles, and lets `\` take the character behind it out of play. A delimiter cuts
//! the text only outside quotes and at depth zero.

use vstd::prelude::*;
use crate::text::{
    chars_of, is_trimmed, joined, lemma_joined_first, lemma_trim_is_shorter, lemma_trim_is_trimmed,
    matches_at, occurs_at, trim, trimmed_slice, CharClass,
};

verus! {

/// The character that takes the one behind it out of play.
pub open spec fn is_escape(c: char) -> bool {
    c == '\\'
}

/// The character that opens and closes a quoted segment.
pub open spec fn is_quote(c: char) -> bool {
    c == '"'
}

/// A character that opens a nested group.
pub open spec fn opens_group(c: char) -> bool {
    c == '(' || c == '['
}

/// A character that closes a nested group.
pub open spec fn closes_group(c: char) -> bool {
    c == ')' || c == ']'
}

/// A character that opens a group of a scan: `(` and `[`, and with `braces` also
/// `{`.
pub open spec fn opens(c: char, braces: bool) -> bool {
    opens_group(c) || (braces && c == '{')
}

/// A character that closes a group of a scan: `)` and `]`, and with `braces` also
/// `}`.
pub open spec fn closes(c: char, braces: bool) -> bool {
    closes_group(c) || (braces && c == '}')
}

/// The last piece of a scan: what stands behind the last cut, unless nothing does.
pub open spec fn last_piece(s: Seq<char>, start: int) -> Seq<Seq<char>> {
    if 0 <= start < s.len() {
        seq![trim(s.subrange(start, s.len() as int), CharClass::Whitespace)]
    } else {
        Seq::empty()
    }
}

/// The pieces that a scan yields from index `i` on, when the current piece began at
/// `start` and the scan stands at nesting depth `depth`, inside quotes or not.
pub open spec fn pieces_from(
    s: Seq<char>,
    delimiter: Seq<char>,
    i: int,
    start: int,
    depth: int,
    quoted: bool,
    braces: bool,
) -> Seq<Seq<char>>
    decreases s.len() + 1 - i,
{
    if i < 0 || i >= s.len() || start < 0 || start > i {
        last_piece(s, start)
    } else if is_escape(s[i]) {
        pieces_from(s, delimiter, i + 2, start, depth, quoted, braces)
    } else if is_quote(s[i]) {
        pieces_from(s, delimiter, i + 1, start, depth, !quoted, braces)
    } else if quoted {
        pieces_from(s, delimiter, i + 1, start, depth, quoted, braces)
    } else if opens(s[i], braces) {
        pieces_from(s, delimiter, i + 1, start, depth + 1, quoted, braces)
    } else if closes(s[i], braces) {
        pieces_from(s, delimiter, i + 1, start, depth - 1, quoted, braces)
    } else if depth == 0 && delimiter.len() > 0 && matches_at(s, delimiter, i) {
        seq![trim(s.subrange(start, i), CharClass::Whitespace)] + pieces_from(
            s,
            delimiter,
            i + delimiter.len(),
            i + delimiter.len(),
            depth,
            quoted,
            braces,
        )
    } else {
        pieces_from(s, delimiter, i + 1, start, depth, quoted, braces)
    }
}

/// The pieces of `s` between its top-level occurrences of `delimiter`, each trimmed
/// of surrounding whitespace. Nothing behind the last cut yields no piece, so the
/// empty text has no pieces. An empty delimiter occurs nowhere.
pub open spec fn split(s: Seq<char>, delimiter: Seq<char>) -> Seq<Seq<char>> {
    pieces_from(s, delimiter, 0, 0, 0, false, false)
}

/// The views of a vector of string slices.
pub open spec fn slice_views(v: Seq<&str>) -> Seq<Seq<char>> {
    Seq::new(v.len(), |k: int| v[k]@)
}

/// Splits `input` at the occurrences of `delimiter` that stand outside quotes and
/// outside every `(`..`)` and `[`..`]` group, and trims each piece.
pub fn split_top_level<'a>(input: &'a str, delimiter: &str) -> (result: Vec<&'a str>)
    ensures
        slice_views(result@) == split(input@, delimiter@),
{
    split_scan(input, delimiter, false)
}

/// Splits `input` as `split_top_level` does; with `braces`, `{`..`}` is a group
/// too.
pub fn split_scan<'a>(input: &'a str, delimiter: &str, braces: bool) -> (result: Vec<&'a str>)
    ensures
        slice_views(result@) == pieces_from(input@, delimiter@, 0, 0, 0, false, braces),
{
    let chars = chars_of(input);
    let pattern = chars_of(delimiter);
    let n: usize = chars.len();
    let mut result: Vec<&'a str> = Vec::new();
    let mut start: usize = 0;
    let mut depth: i128 = 0;
    let mut quoted: bool = false;
    let mut i: usize = 0;
    while i < n
        invariant
            n == chars.len(),
            chars@ == input@,
            pattern@ == delimiter@,
            start <= i,
            i <= n,
            -(i as int) <= depth <= i as int,
            pieces_from(input@, delimiter@, 0, 0, 0, false, braces) == slice_views(result@) + pieces_from(
                input@,
                delimiter@,
                i as int,
                start as int,
                depth as int,
                quoted,
                braces,
            ),
        decreases n - i,
    {
        let c: char = chars[i];
        if c == '\\' {
            if n - i >= 2 {
                i += 2;
            } else {
                assert(pieces_from(input@, delimiter@, i + 2, start as int, depth as int, quoted, braces)
                    == last_piece(input@, start as int));
                assert(pieces_from(input@, delimiter@, n as int, start as int, depth as int, quoted, braces)
                    == last_piece(input@, start as int));
                i = n;
            }
        } else if c == '"' {
            quoted = !quoted;
            i += 1;
        } else if quoted {
            i += 1;
        } else if c == '(' || c == '[' || (braces && c == '{') {
            depth += 1;
            i += 1;
        } else if c == ')' || c == ']' || (braces && c == '}') {
            depth -= 1;
            i += 1;
        } else if depth == 0 && pattern.len() > 0 && occurs_at(&chars, &pattern, i) {
            let piece = trimmed_slice(input, &chars, CharClass::Whitespace, start, i);
            proof {
                let before = slice_views(result@);
                let rest = pieces_from(
                    input@,
                    delimiter@,
                    i + pattern.len(),
                    i + pattern.len(),
                    depth as int,
                    quoted,
                    braces,
                );
                assert(slice_views(result@.push(piece)) =~= before.push(piece@));
                assert(before + (seq![piece@] + rest) =~= before.push(piece@) + rest);
            }
            result.push(piece);
            i += pattern.len();
            start = i;
        } else {
            i += 1;
        }
    }
    if start < n {
        let piece = trimmed_slice(input, &chars, CharClass::Whitespace, start, n);
        proof {
            let before = slice_views(result@);
            assert(slice_views(result@.push(piece)) =~= before.push(piece@));
            assert(before + seq![piece@] =~= before.push(piece@));
        }
        result.push(piece);
    } else {
        assert(slice_views(result@) + Seq::<Seq<char>>::empty() =~= slice_views(result@));
    }
    result
}

/// Every piece of a scan fits into what stands behind the start of the current
/// piece, and where a scan yields two pieces or more, each is shorter than that.
pub proof fn lemma_pieces_fit(
    s: Seq<char>,
    delimiter: Seq<char>,
    i: int,
    start: int,
    depth: int,
    quoted: bool,
    braces: bool,
)
    requires
        0 <= start <= i,
        start <= s.len(),
    ensures
        forall|k: int|
            0 <= k < pieces_from(s, delimiter, i, start, depth, quoted, braces).len() ==> (
            #[trigger] pieces_from(s, delimiter, i, start, depth, quoted, braces)[k]).len() <= s.len()
                - start,
        pieces_from(s, delimiter, i, start, depth, quoted, braces).len() >= 2 ==> forall|k: int|
            0 <= k < pieces_from(s, delimiter, i, start, depth, quoted, braces).len() ==> (
            #[trigger] pieces_from(s, delimiter, i, start, depth, quoted, braces)[k]).len() < s.len()
                - start,
    decreases s.len() + 1 - i,
{
    let pieces = pieces_from(s, delimiter, i, start, depth, quoted, braces);
    if i >= s.len() {
        if start < s.len() {
            lemma_trim_is_shorter(s.subrange(start, s.len() as int), CharClass::Whitespace);
        }
        assert(pieces.len() <= 1);
    } else if depth == 0 && delimiter.len() > 0 && matches_at(s, delimiter, i) && !quoted
        && !is_structural(s[i]) && !opens(s[i], braces) && !closes(s[i], braces) {
        let next = i + delimiter.len();
        let rest = pieces_from(s, delimiter, next, next, depth, quoted, braces);
        lemma_pieces_fit(s, delimiter, next, next, depth, quoted, braces);
        lemma_trim_is_shorter(s.subrange(start, i), CharClass::Whitespace);
        assert(pieces == seq![trim(s.subrange(start, i), CharClass::Whitespace)] + rest);
        assert forall|k: int| 0 <= k < pieces.len() implies (#[trigger] pieces[k]).len() < s.len()
            - start by {
            if k > 0 {
                assert(pieces[k] == rest[k - 1]);
                assert(rest[k - 1].len() <= s.len() - next);
            } else {
                assert(pieces[0] == trim(s.subrange(start, i), CharClass::Whitespace));
            }
        }
    } else {
        let step: int = if is_escape(s[i]) {
            2
        } else {
            1
        };
        let after: int = if is_escape(s[i]) || is_quote(s[i]) || quoted {
            depth
        } else if opens(s[i], braces) {
            depth + 1
        } else if closes(s[i], braces) {
            depth - 1
        } else {
            depth
        };
        let inside = if !is_escape(s[i]) && is_quote(s[i]) {
            !quoted
        } else {
            quoted
        };
        let rest = pieces_from(s, delimiter, i + step, start, after, inside, braces);
        lemma_pieces_fit(s, delimiter, i + step, start, after, inside, braces);
        assert(pieces == rest);
        assert forall|k: int| 0 <= k < pieces.len() implies (#[trigger] pieces[k]).len() <= s.len()
            - start by {
            assert(rest[k].len() <= s.len() - start);
        }
        if pieces.len() >= 2 {
            assert forall|k: int| 0 <= k < pieces.len() implies (#[trigger] pieces[k]).len()
                < s.len() - start by {
                assert(rest[k].len() < s.len() - start);
            }
        }
    }
}

/// No piece of a split is longer than the text, and where there are two pieces or
/// more, each is shorter than the text.
pub proof fn lemma_split_pieces_fit(s: Seq<char>, delimiter: Seq<char>)
    ensures
        forall|k: int|
            0 <= k < split(s, delimiter).len() ==> (#[trigger] split(s, delimiter)[k]).len()
                <= s.len(),
        split(s, delimiter).len() >= 2 ==> forall|k: int|
            0 <= k < split(s, delimiter).len() ==> (#[trigger] split(s, delimiter)[k]).len()
                < s.len(),
{
    lemma_pieces_fit(s, delimiter, 0, 0, 0, false, false);
}

/// Every piece of a scan is trimmed: it neither begins nor ends with whitespace.
pub proof fn lemma_pieces_are_trimmed(
    s: Seq<char>,
    delimiter: Seq<char>,
    i: int,
    start: int,
    depth: int,
    quoted: bool,
    braces: bool,
)
    ensures
        forall|k: int|
            0 <= k < pieces_from(s, delimiter, i, start, depth, quoted, braces).len() ==> is_trimmed(
                #[trigger] pieces_from(s, delimiter, i, start, depth, quoted, braces)[k],
                CharClass::Whitespace,
            ),
    decreases s.len() + 1 - i,
{
    let pieces = pieces_from(s, delimiter, i, start, depth, quoted, braces);
    if i < 0 || i >= s.len() || start < 0 || start > i {
        if 0 <= start < s.len() {
            lemma_trim_is_trimmed(s.subrange(start, s.len() as int), CharClass::Whitespace);
            assert(pieces[0] == trim(s.subrange(start, s.len() as int), CharClass::Whitespace));
        }
    } else if depth == 0 && delimiter.len() > 0 && matches_at(s, delimiter, i) && !quoted
        && !is_structural(s[i]) && !opens(s[i], braces) && !closes(s[i], braces) {
        let next = i + delimiter.len();
        let rest = pieces_from(s, delimiter, next, next, depth, quoted, braces);
        lemma_pieces_are_trimmed(s, delimiter, next, next, depth, quoted, braces);
        lemma_trim_is_trimmed(s.subrange(start, i), CharClass::Whitespace);
        assert(pieces == seq![trim(s.subrange(start, i), CharClass::Whitespace)] + rest);
        assert forall|k: int| 0 <= k < pieces.len() implies is_trimmed(
            #[trigger] pieces[k],
            CharClass::Whitespace,
        ) by {
            if k > 0 {
                assert(pieces[k] == rest[k - 1]);
            } else {
                assert(pieces[0] == trim(s.subrange(start, i), CharClass::Whitespace));
            }
        }
    } else {
        let step: int = if is_escape(s[i]) {
            2
        } else {
            1
        };
        let after: int = if is_escape(s[i]) || is_quote(s[i]) || quoted {
            depth
        } else if opens(s[i], braces) {
            depth + 1
        } else if closes(s[i], braces) {
            depth - 1
        } else {
            depth
        };
        let inside = if !is_escape(s[i]) && is_quote(s[i]) {
            !quoted
        } else {
            quoted
        };
        let rest = pieces_from(s, delimiter, i + step, start, after, inside, braces);
        lemma_pieces_are_trimmed(s, delimiter, i + step, start, after, inside, braces);
        assert(pieces == rest);
        assert forall|k: int| 0 <= k < pieces.len() implies is_trimmed(
            #[trigger] pieces[k],
            CharClass::Whitespace,
        ) by {
            assert(is_trimmed(rest[k], CharClass::Whitespace));
        }
    }
}

/// Every piece of a split is trimmed.
pub proof fn lemma_split_pieces_are_trimmed(s: Seq<char>, delimiter: Seq<char>)
    ensures
        forall|k: int|
            0 <= k < split(s, delimiter).len() ==> is_trimmed(
                #[trigger] split(s, delimiter)[k],
                CharClass::Whitespace,
            ),
{
    lemma_pieces_are_trimmed(s, delimiter, 0, 0, 0, false, false);
}

/// A character with a meaning of its own in a scan: the escape, the quote, and
/// those that open and close a group.
pub open spec fn is_structural(c: char) -> bool {
    is_escape(c) || is_quote(c) || opens_group(c) || closes_group(c)
}

/// A scan of `part` alone from index `i` on, at the given depth and quoted
/// state, comes to the end of the part outside quotes and at depth zero, with no
/// escape left open, and meets `first` nowhere outside quotes at depth zero.
pub open spec fn closed_from(part: Seq<char>, first: char, i: int, depth: int, quoted: bool) -> bool
    decreases part.len() + 1 - i,
{
    if i < 0 || i > part.len() {
        false
    } else if i == part.len() {
        depth == 0 && !quoted
    } else if is_escape(part[i]) {
        i + 2 <= part.len() && closed_from(part, first, i + 2, depth, quoted)
    } else if is_quote(part[i]) {
        closed_from(part, first, i + 1, depth, !quoted)
    } else if quoted {
        closed_from(part, first, i + 1, depth, quoted)
    } else if opens_group(part[i]) {
        closed_from(part, first, i + 1, depth + 1, quoted)
    } else if closes_group(part[i]) {
        closed_from(part, first, i + 1, depth - 1, quoted)
    } else if depth == 0 && part[i] == first {
        false
    } else {
        closed_from(part, first, i + 1, depth, quoted)
    }
}

/// A part that a split by a delimiter beginning with `first` leaves whole: its
/// quotes and groups are closed, and every `first` in it stands inside one of
/// them or behind an escape.
pub open spec fn is_closed(part: Seq<char>, first: char) -> bool {
    closed_from(part, first, 0, 0, false)
}

/// A scan goes through a closed part without a cut, and leaves it outside quotes
/// and at depth zero.
pub proof fn lemma_scan_closed(
    s: Seq<char>,
    delimiter: Seq<char>,
    part: Seq<char>,
    at: int,
    i: int,
    start: int,
    depth: int,
    quoted: bool,
)
    requires
        delimiter.len() > 0,
        0 <= start <= at,
        0 <= i <= part.len(),
        at + part.len() <= s.len(),
        s.subrange(at, at + part.len()) == part,
        closed_from(part, delimiter[0], i, depth, quoted),
    ensures
        pieces_from(s, delimiter, at + i, start, depth, quoted, false) == pieces_from(
            s,
            delimiter,
            at + part.len(),
            start,
            0,
            false,
            false,
        ),
    decreases part.len() - i,
{
    if i < part.len() {
        assert(s.subrange(at, at + part.len())[i] == s[at + i]);
        if is_escape(part[i]) {
            lemma_scan_closed(s, delimiter, part, at, i + 2, start, depth, quoted);
        } else if is_quote(part[i]) {
            lemma_scan_closed(s, delimiter, part, at, i + 1, start, depth, !quoted);
        } else if quoted {
            lemma_scan_closed(s, delimiter, part, at, i + 1, start, depth, quoted);
        } else if opens_group(part[i]) {
            lemma_scan_closed(s, delimiter, part, at, i + 1, start, depth + 1, quoted);
        } else if closes_group(part[i]) {
            lemma_scan_closed(s, delimiter, part, at, i + 1, start, depth - 1, quoted);
        } else {
            if matches_at(s, delimiter, at + i) {
                assert(s.subrange(at + i, at + i + delimiter.len())[0] == s[at + i]);
            }
            lemma_scan_closed(s, delimiter, part, at, i + 1, start, depth, quoted);
        }
    }
}

/// A scan that begins behind `before`, where the parts joined by the delimiter
/// follow, yields the parts.
pub proof fn lemma_scan_joined(before: Seq<char>, parts: Seq<Seq<char>>, delimiter: Seq<char>)
    requires
        delimiter.len() > 0,
        !is_structural(delimiter[0]),
        parts.len() > 0,
        parts.last().len() > 0,
        forall|k: int|
            0 <= k < parts.len() ==> is_closed(#[trigger] parts[k], delimiter[0]) && is_trimmed(
                parts[k],
                CharClass::Whitespace,
            ),
    ensures
        pieces_from(
            before + joined(parts, delimiter),
            delimiter,
            before.len() as int,
            before.len() as int,
            0,
            false,
            false,
        ) == parts,
    decreases parts.len(),
{
    let s = before + joined(parts, delimiter);
    let at = before.len() as int;
    let head = parts[0];
    lemma_trim_is_trimmed(head, CharClass::Whitespace);
    if parts.len() == 1 {
        assert(joined(parts, delimiter) == head);
        assert(s.subrange(at, at + head.len()) =~= head);
        lemma_scan_closed(s, delimiter, head, at, 0, at, 0, false);
        assert(s.subrange(at, s.len() as int) =~= head);
        assert(parts =~= seq![head]);
    } else {
        let rest = parts.skip(1);
        lemma_joined_first(parts, delimiter);
        let cut = at + head.len();
        let next = cut + delimiter.len();
        assert(s =~= before + head + delimiter + joined(rest, delimiter));
        assert(s.subrange(at, cut) =~= head);
        assert(s.subrange(cut, next) =~= delimiter);
        lemma_scan_closed(s, delimiter, head, at, 0, at, 0, false);
        assert(s[cut] == delimiter[0]) by {
            assert(s.subrange(cut, next)[0] == s[cut]);
        }
        assert(matches_at(s, delimiter, cut));
        assert forall|k: int| 0 <= k < rest.len() implies is_closed(
            #[trigger] rest[k],
            delimiter[0],
        ) && is_trimmed(rest[k], CharClass::Whitespace) by {
            assert(rest[k] == parts[k + 1]);
        }
        assert(rest.last() == parts.last());
        lemma_scan_joined(before + head + delimiter, rest, delimiter);
        assert(before + head + delimiter + joined(rest, delimiter) =~= s);
        assert(pieces_from(s, delimiter, cut, at, 0, false, false) == seq![
            trim(s.subrange(at, cut), CharClass::Whitespace),
        ] + pieces_from(s, delimiter, next, next, 0, false, false));
        assert(seq![head] + rest =~= parts);
    }
}

/// Splitting undoes joining: where each part is trimmed and closed, the last part
/// is not empty, and the delimiter begins with a character without a meaning of
/// its own, the parts joined by the delimiter split into the same parts.
pub proof fn lemma_split_of_joined(parts: Seq<Seq<char>>, delimiter: Seq<char>)
    requires
        delimiter.len() > 0,
        !is_structural(delimiter[0]),
        parts.len() > 0 ==> parts.last().len() > 0,
        forall|k: int|
            0 <= k < parts.len() ==> is_closed(#[trigger] parts[k], delimiter[0]) && is_trimmed(
                parts[k],
                CharClass::Whitespace,
            ),
    ensures
        split(joined(parts, delimiter), delimiter) == parts,
{
    if parts.len() == 0 {
        assert(split(joined(parts, delimiter), delimiter) =~= parts);
    } else {
        lemma_scan_joined(Seq::empty(), parts, delimiter);
        assert(Seq::<char>::empty() + joined(parts, delimiter) =~= joined(parts, delimiter));
    }
}

} // verus!
