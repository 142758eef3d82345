//! The chapter XML exchange format, stated as specification functions.
//!
//! A document is an optional XML declaration followed by one
//! `<EditionEntry>` element holding zero or more `<ChapterAtom>` children,
//! each with a required `<ChapterTimeStart>`, an optional `<ChapterTimeEnd>`,
//! and a `<ChapterDisplay>` wrapping one `<ChapterString>` title.  Whitespace
//! is allowed between elements; element text is preserved verbatim.
//!
//! `parse_doc` is the meaning of parsing: a deterministic reading of the
//! grammar that either yields the chapter sequence or nothing.  `doc_xml` is
//! the meaning of serialization: the canonical text of a chapter sequence.

use vstd::prelude::*;

use crate::chapters::ChapterView;

verus! {

/// The XML declaration header emitted (and accepted) on a document.
pub open spec fn xml_decl() -> Seq<char> {
    "<?xml version=\"1.0\"?>"@
}

pub open spec fn open_edition() -> Seq<char> {
    "<EditionEntry>"@
}

pub open spec fn close_edition() -> Seq<char> {
    "</EditionEntry>"@
}

pub open spec fn open_atom() -> Seq<char> {
    "<ChapterAtom>"@
}

pub open spec fn close_atom() -> Seq<char> {
    "</ChapterAtom>"@
}

pub open spec fn open_time_start() -> Seq<char> {
    "<ChapterTimeStart>"@
}

pub open spec fn close_time_start() -> Seq<char> {
    "</ChapterTimeStart>"@
}

pub open spec fn open_time_end() -> Seq<char> {
    "<ChapterTimeEnd>"@
}

pub open spec fn close_time_end() -> Seq<char> {
    "</ChapterTimeEnd>"@
}

pub open spec fn open_display() -> Seq<char> {
    "<ChapterDisplay>"@
}

pub open spec fn close_display() -> Seq<char> {
    "</ChapterDisplay>"@
}

pub open spec fn open_string() -> Seq<char> {
    "<ChapterString>"@
}

pub open spec fn close_string() -> Seq<char> {
    "</ChapterString>"@
}

/// The whitespace characters tolerated between elements.
pub open spec fn is_ws(c: char) -> bool {
    c == ' ' || c == '\t' || c == '\n' || c == '\r'
}

/// The first position at or after `i` holding a non-whitespace character
/// (or the end of `s`).
pub open spec fn skip_ws(s: Seq<char>, i: int) -> int
    decreases s.len() - i,
{
    if 0 <= i < s.len() && is_ws(s[i]) {
        skip_ws(s, i + 1)
    } else {
        i
    }
}

/// The first position at or after `i` holding `<` (or the end of `s`):
/// element text runs up to here.
pub open spec fn text_end(s: Seq<char>, i: int) -> int
    decreases s.len() - i,
{
    if 0 <= i < s.len() && s[i] != '<' {
        text_end(s, i + 1)
    } else {
        i
    }
}

/// Whether `t` occurs in `s` starting exactly at position `i`.
pub open spec fn match_at(s: Seq<char>, i: int, t: Seq<char>) -> bool {
    0 <= i && i + t.len() <= s.len() && s.subrange(i, i + t.len()) == t
}

/// Reads `open_tag`, verbatim text up to the next `<`, then `close_tag`;
/// yields the text and the position after the close tag.
pub open spec fn parse_elem_text(
    s: Seq<char>,
    i: int,
    open_tag: Seq<char>,
    close_tag: Seq<char>,
) -> Option<(Seq<char>, int)> {
    if match_at(s, i, open_tag) {
        let j = i + open_tag.len();
        let k = text_end(s, j);
        if match_at(s, k, close_tag) {
            Some((s.subrange(j, k), k + close_tag.len()))
        } else {
            None
        }
    } else {
        None
    }
}

/// Reads a `<ChapterDisplay>` element: its `<ChapterString>` title, with
/// whitespace allowed around the inner element.
pub open spec fn parse_display(s: Seq<char>, i: int) -> Option<(Seq<char>, int)> {
    if match_at(s, i, open_display()) {
        match parse_elem_text(s, skip_ws(s, i + open_display().len()), open_string(),
            close_string()) {
            Some((title, k)) => {
                let k2 = skip_ws(s, k);
                if match_at(s, k2, close_display()) {
                    Some((title, k2 + close_display().len()))
                } else {
                    None
                }
            },
            None => None,
        }
    } else {
        None
    }
}

/// Reads the display element and the closing `</ChapterAtom>` tag once the
/// start time and optional end time are in hand.
pub open spec fn parse_atom_close(
    s: Seq<char>,
    i: int,
    start: Seq<char>,
    end: Option<Seq<char>>,
) -> Option<(ChapterView, int)> {
    match parse_display(s, i) {
        Some((title, j)) => {
            let j2 = skip_ws(s, j);
            if match_at(s, j2, close_atom()) {
                Some((ChapterView { start, end, title }, j2 + close_atom().len()))
            } else {
                None
            }
        },
        None => None,
    }
}

/// Reads the contents of one `<ChapterAtom>`, starting just after its open
/// tag: a required start time, an optional end time, then the display.
pub open spec fn parse_atom_body(s: Seq<char>, i: int) -> Option<(ChapterView, int)> {
    match parse_elem_text(s, skip_ws(s, i), open_time_start(), close_time_start()) {
        Some((start, i1)) => {
            let i2 = skip_ws(s, i1);
            if match_at(s, i2, open_time_end()) {
                match parse_elem_text(s, i2, open_time_end(), close_time_end()) {
                    Some((end, i3)) => parse_atom_close(s, skip_ws(s, i3), start, Some(end)),
                    None => None,
                }
            } else {
                parse_atom_close(s, i2, start, None)
            }
        },
        None => None,
    }
}

/// Reads zero or more `<ChapterAtom>` elements followed by the closing
/// `</EditionEntry>` tag; yields the chapters in document order and the
/// position after the close tag.
pub open spec fn parse_atoms(s: Seq<char>, i: int) -> Option<(Seq<ChapterView>, int)>
    decreases s.len() - i,
{
    let j = skip_ws(s, i);
    if match_at(s, j, close_edition()) {
        Some((Seq::empty(), j + close_edition().len()))
    } else if match_at(s, j, open_atom()) {
        match parse_atom_body(s, j + open_atom().len()) {
            Some((c, k)) => {
                if i < k <= s.len() {
                    match parse_atoms(s, k) {
                        Some((rest, e)) => Some((seq![c] + rest, e)),
                        None => None,
                    }
                } else {
                    None
                }
            },
            None => None,
        }
    } else {
        None
    }
}

/// The meaning of parsing a whole document: an optional declaration, the
/// edition element, and nothing but whitespace after it.
pub open spec fn parse_doc(s: Seq<char>) -> Option<Seq<ChapterView>> {
    let i0 = skip_ws(s, 0);
    let i1 = if match_at(s, i0, xml_decl()) {
        skip_ws(s, i0 + xml_decl().len())
    } else {
        i0
    };
    if match_at(s, i1, open_edition()) {
        match parse_atoms(s, i1 + open_edition().len()) {
            Some((cs, e)) => {
                if skip_ws(s, e) == s.len() {
                    Some(cs)
                } else {
                    None
                }
            },
            None => None,
        }
    } else {
        None
    }
}

/// Element text the emitter may write verbatim: it must not contain `<`,
/// which would open a tag.  Text produced by parsing always satisfies this.
pub open spec fn text_ok(t: Seq<char>) -> bool {
    forall|k: int| 0 <= k < t.len() ==> t[k] != '<'
}

/// A chapter whose fields can all be written verbatim.
pub open spec fn wf_chapter(c: ChapterView) -> bool {
    &&& text_ok(c.start)
    &&& match c.end {
        Some(e) => text_ok(e),
        None => true,
    }
    &&& text_ok(c.title)
}

/// A chapter sequence whose chapters are all well-formed.
pub open spec fn wf_chapters(cs: Seq<ChapterView>) -> bool {
    forall|k: int| 0 <= k < cs.len() ==> wf_chapter(cs[k])
}

/// The canonical text of the optional end-time element: present exactly when
/// the chapter has an end time.
pub open spec fn end_xml(e: Option<Seq<char>>) -> Seq<char> {
    match e {
        Some(t) => open_time_end() + t + close_time_end(),
        None => Seq::empty(),
    }
}

/// The canonical text of one `<ChapterAtom>` element.
pub open spec fn atom_xml(c: ChapterView) -> Seq<char> {
    open_atom() + open_time_start() + c.start + close_time_start() + end_xml(c.end)
        + open_display() + open_string() + c.title + close_string() + close_display()
        + close_atom()
}

/// The canonical text of a chapter sequence, in order.
pub open spec fn atoms_xml(cs: Seq<ChapterView>) -> Seq<char>
    decreases cs.len(),
{
    if cs.len() == 0 {
        Seq::empty()
    } else {
        atom_xml(cs[0]) + atoms_xml(cs.drop_first())
    }
}

/// The canonical text of a whole document: the declaration, a line break,
/// and the edition element.
pub open spec fn doc_xml(cs: Seq<ChapterView>) -> Seq<char> {
    xml_decl() + "\n"@ + open_edition() + atoms_xml(cs) + close_edition()
}

/// Appending one chapter extends the canonical text by exactly that
/// chapter's element.
pub proof fn lemma_atoms_xml_push(cs: Seq<ChapterView>, c: ChapterView)
    ensures
        atoms_xml(cs.push(c)) == atoms_xml(cs) + atom_xml(c),
    decreases cs.len(),
{
    if cs.len() == 0 {
        assert(cs.push(c).drop_first() =~= Seq::<ChapterView>::empty());
        assert(atoms_xml(Seq::<ChapterView>::empty()) == Seq::<char>::empty());
        assert(cs.push(c)[0] == c);
        assert(atoms_xml(cs.push(c)) == atom_xml(c) + Seq::<char>::empty());
        assert(atom_xml(c) + Seq::<char>::empty() =~= Seq::<char>::empty() + atom_xml(c));
        assert(cs =~= Seq::<ChapterView>::empty());
    } else {
        assert(cs.push(c).drop_first() =~= cs.drop_first().push(c));
        lemma_atoms_xml_push(cs.drop_first(), c);
        assert(atom_xml(cs[0]) + (atoms_xml(cs.drop_first()) + atom_xml(c)) =~= (atom_xml(cs[0])
            + atoms_xml(cs.drop_first())) + atom_xml(c));
    }
}

} // verus!
