//! The executable parser for the chapter XML exchange format, proved to
//! compute exactly what the grammar in [`crate::xml`] means.

use vstd::prelude::*;

use crate::chapters::{
    atoms_view, ChapterAtom, ChapterDisplay, ChapterError, ChapterView, Chapters, EditionEntry,
};
use crate::laws::lemma_parse_doc_wf;
use crate::xml::{
    match_at, parse_atom_body, parse_atoms, parse_display, parse_doc, parse_elem_text,
    skip_ws, text_end, wf_chapters,
};

verus! {

/// The first position at or after `i` holding a non-whitespace character.
fn skip_ws_at(s: &str, i: usize) -> (r: usize)
    requires
        i <= s@.len(),
    ensures
        r as int == skip_ws(s@, i as int),
        i <= r <= s@.len(),
{
    let n = s.unicode_len();
    let mut j = i;
    loop
        invariant
            i <= j <= n,
            n == s@.len(),
            skip_ws(s@, i as int) == skip_ws(s@, j as int),
        ensures
            i <= j <= n,
            j as int == skip_ws(s@, i as int),
        decreases n - j,
    {
        if j == n {
            break;
        }
        let c = s.get_char(j);
        if !(c == ' ' || c == '\t' || c == '\n' || c == '\r') {
            break;
        }
        proof {
            assert(skip_ws(s@, j as int) == skip_ws(s@, j + 1 as int));
        }
        j = j + 1;
    }
    j
}

/// The first position at or after `i` holding `<`.
fn text_end_at(s: &str, i: usize) -> (r: usize)
    requires
        i <= s@.len(),
    ensures
        r as int == text_end(s@, i as int),
        i <= r <= s@.len(),
{
    let n = s.unicode_len();
    let mut j = i;
    loop
        invariant
            i <= j <= n,
            n == s@.len(),
            text_end(s@, i as int) == text_end(s@, j as int),
        ensures
            i <= j <= n,
            j as int == text_end(s@, i as int),
        decreases n - j,
    {
        if j == n {
            break;
        }
        if s.get_char(j) == '<' {
            break;
        }
        proof {
            assert(text_end(s@, j as int) == text_end(s@, j + 1 as int));
        }
        j = j + 1;
    }
    j
}

/// Whether the tag `t` occurs in `s` starting exactly at position `i`.
fn tag_match(s: &str, i: usize, t: &str) -> (r: bool)
    requires
        i <= s@.len(),
    ensures
        r == match_at(s@, i as int, t@),
{
    let n = s.unicode_len();
    let m = t.unicode_len();
    if m > n - i {
        proof {
            assert(!match_at(s@, i as int, t@));
        }
        return false;
    }
    let mut k: usize = 0;
    while k < m
        invariant
            k <= m,
            m == t@.len(),
            n == s@.len(),
            i + m <= n,
            forall|q: int| 0 <= q < k ==> s@[i + q] == t@[q],
        decreases m - k,
    {
        if s.get_char(i + k) != t.get_char(k) {
            proof {
                assert(s@.subrange(i as int, i + t@.len()) != t@) by {
                    if s@.subrange(i as int, i + t@.len()) == t@ {
                        assert(s@.subrange(i as int, i + t@.len())[k as int] == s@[i + k]);
                    }
                }
            }
            return false;
        }
        k = k + 1;
    }
    proof {
        assert(s@.subrange(i as int, i + t@.len()) =~= t@);
    }
    true
}

/// Reads one element of the form open tag, verbatim text, close tag, and
/// hands the text back as an owned string.
fn elem_text_at(s: &str, i: usize, open_tag: &str, close_tag: &str) -> (r: Option<(String, usize)>)
    requires
        i <= s@.len(),
    ensures
        match r {
            Some((t, j)) => {
                &&& parse_elem_text(s@, i as int, open_tag@, close_tag@) == Some((t@, j as int))
                &&& i <= j <= s@.len()
            },
            None => parse_elem_text(s@, i as int, open_tag@, close_tag@) is None,
        },
{
    let _n = s.unicode_len();
    if !tag_match(s, i, open_tag) {
        return None;
    }
    let j = i + open_tag.unicode_len();
    let k = text_end_at(s, j);
    if !tag_match(s, k, close_tag) {
        return None;
    }
    let txt = String::from_str(s.substring_char(j, k));
    Some((txt, k + close_tag.unicode_len()))
}

/// Reads a `<ChapterDisplay>` element and hands back its title.
fn display_at(s: &str, i: usize) -> (r: Option<(String, usize)>)
    requires
        i <= s@.len(),
    ensures
        match r {
            Some((t, j)) => {
                &&& parse_display(s@, i as int) == Some((t@, j as int))
                &&& i <= j <= s@.len()
            },
            None => parse_display(s@, i as int) is None,
        },
{
    let _n = s.unicode_len();
    if !tag_match(s, i, "<ChapterDisplay>") {
        return None;
    }
    let j = skip_ws_at(s, i + "<ChapterDisplay>".unicode_len());
    match elem_text_at(s, j, "<ChapterString>", "</ChapterString>") {
        Some((title, k)) => {
            let k2 = skip_ws_at(s, k);
            if tag_match(s, k2, "</ChapterDisplay>") {
                Some((title, k2 + "</ChapterDisplay>".unicode_len()))
            } else {
                None
            }
        },
        None => None,
    }
}

/// Reads the contents of one `<ChapterAtom>`, starting just after its open
/// tag, and builds the chapter.
fn atom_body_at(s: &str, i: usize) -> (r: Option<(ChapterAtom, usize)>)
    requires
        i <= s@.len(),
    ensures
        match r {
            Some((c, j)) => {
                &&& parse_atom_body(s@, i as int) == Some((c@, j as int))
                &&& i <= j <= s@.len()
            },
            None => parse_atom_body(s@, i as int) is None,
        },
{
    let _n = s.unicode_len();
    let i0 = skip_ws_at(s, i);
    let start;
    let i1;
    match elem_text_at(s, i0, "<ChapterTimeStart>", "</ChapterTimeStart>") {
        Some((t, j)) => {
            start = t;
            i1 = j;
        },
        None => {
            return None;
        },
    }
    let i2 = skip_ws_at(s, i1);
    let end_time: Option<String>;
    let i4;
    if tag_match(s, i2, "<ChapterTimeEnd>") {
        match elem_text_at(s, i2, "<ChapterTimeEnd>", "</ChapterTimeEnd>") {
            Some((t, i3)) => {
                end_time = Some(t);
                i4 = skip_ws_at(s, i3);
            },
            None => {
                return None;
            },
        }
    } else {
        end_time = None;
        i4 = i2;
    }
    match display_at(s, i4) {
        Some((title, j)) => {
            let j2 = skip_ws_at(s, j);
            if tag_match(s, j2, "</ChapterAtom>") {
                let atom = ChapterAtom {
                    start_time: start,
                    end_time,
                    display: ChapterDisplay { title },
                };
                let e = j2 + "</ChapterAtom>".unicode_len();
                proof {
                    assert(parse_atom_body(s@, i as int) == Some((atom@, e as int)));
                }
                Some((atom, e))
            } else {
                None
            }
        },
        None => None,
    }
}

/// Joins an already-parsed prefix with the outcome of parsing the rest.
spec fn glue(
    pre: Seq<ChapterView>,
    r: Option<(Seq<ChapterView>, int)>,
) -> Option<(Seq<ChapterView>, int)> {
    match r {
        Some((rest, e)) => Some((pre + rest, e)),
        None => None,
    }
}

/// Reads zero or more chapter elements up to and including the closing
/// `</EditionEntry>` tag.
fn atoms_at(s: &str, i: usize) -> (r: Option<(Vec<ChapterAtom>, usize)>)
    requires
        i <= s@.len(),
    ensures
        match r {
            Some((v, e)) => {
                &&& parse_atoms(s@, i as int) == Some((atoms_view(v@), e as int))
                &&& e <= s@.len()
            },
            None => parse_atoms(s@, i as int) is None,
        },
{
    let _n = s.unicode_len();
    let mut acc: Vec<ChapterAtom> = Vec::new();
    let mut cur = i;
    proof {
        assert(atoms_view(acc@) =~= Seq::<ChapterView>::empty());
        assert(glue(atoms_view(acc@), parse_atoms(s@, cur as int)) == parse_atoms(s@, i as int));
    }
    loop
        invariant
            cur <= s@.len(),
            s@.len() <= usize::MAX,
            parse_atoms(s@, i as int) == glue(atoms_view(acc@), parse_atoms(s@, cur as int)),
        decreases s@.len() - cur,
    {
        let j = skip_ws_at(s, cur);
        if tag_match(s, j, "</EditionEntry>") {
            let e = j + "</EditionEntry>".unicode_len();
            proof {
                assert(parse_atoms(s@, cur as int) == Some(
                    (Seq::<ChapterView>::empty(), e as int),
                ));
                assert(atoms_view(acc@) + Seq::<ChapterView>::empty() =~= atoms_view(acc@));
            }
            return Some((acc, e));
        }
        if !tag_match(s, j, "<ChapterAtom>") {
            proof {
                assert(parse_atoms(s@, cur as int) is None);
            }
            return None;
        }
        let ib = j + "<ChapterAtom>".unicode_len();
        match atom_body_at(s, ib) {
            Some((atom, k)) => {
                let ghost acc0 = acc@;
                let ghost cur0 = cur as int;
                acc.push(atom);
                cur = k;
                proof {
                    reveal_strlit("<ChapterAtom>");
                    assert(parse_atoms(s@, cur0) == glue(seq![atom@], parse_atoms(s@, k as int)));
                    assert(atoms_view(acc@) =~= atoms_view(acc0).push(atom@));
                    if parse_atoms(s@, k as int) is Some {
                        let (rest, e) = parse_atoms(s@, k as int)->Some_0;
                        assert(atoms_view(acc0) + (seq![atom@] + rest) =~= atoms_view(acc@)
                            + rest);
                    }
                }
            },
            None => {
                proof {
                    assert(parse_atoms(s@, cur as int) is None);
                }
                return None;
            },
        }
    }
}

/// Parses a UTF-8 XML string against the chapter schema.  Returns the
/// document exactly when the grammar accepts the text, and
/// `ChapterError::MalformedInput` exactly when it does not.  No semantic
/// validation is performed: any syntactically valid document is accepted.
pub fn parse_chapter_xml(xml: &str) -> (r: Result<Chapters, ChapterError>)
    ensures
        match r {
            Ok(doc) => parse_doc(xml@) == Some(doc@) && wf_chapters(doc@),
            Err(e) => parse_doc(xml@) is None && e == ChapterError::MalformedInput,
        },
{
    let _n = xml.unicode_len();
    let i0 = skip_ws_at(xml, 0);
    let i1;
    if tag_match(xml, i0, "<?xml version=\"1.0\"?>") {
        i1 = skip_ws_at(xml, i0 + "<?xml version=\"1.0\"?>".unicode_len());
    } else {
        i1 = i0;
    }
    if !tag_match(xml, i1, "<EditionEntry>") {
        return Err(ChapterError::MalformedInput);
    }
    let ib = i1 + "<EditionEntry>".unicode_len();
    match atoms_at(xml, ib) {
        Some((v, e)) => {
            let f = skip_ws_at(xml, e);
            if f == xml.unicode_len() {
                let doc = Chapters { edition_entry: EditionEntry { chapters: v } };
                proof {
                    assert(doc@ == atoms_view(v@));
                    lemma_parse_doc_wf(xml@, doc@);
                }
                Ok(doc)
            } else {
                Err(ChapterError::MalformedInput)
            }
        },
        None => Err(ChapterError::MalformedInput),
    }
}

} // verus!
