//! Laws relating the parser and the emitter: text extracted by parsing can
//! always be written back verbatim, and serializing a parsed document and
//! parsing it again yields the same chapter sequence.

use vstd::prelude::*;

use crate::chapters::ChapterView;
use crate::xml::{
    atom_xml, atoms_xml, close_atom, close_display, close_edition, close_string, close_time_end,
    close_time_start, doc_xml, end_xml, is_ws, match_at, open_atom, open_display, open_edition,
    open_string, open_time_end, open_time_start, parse_atom_body, parse_atom_close, parse_atoms,
    parse_display, parse_doc, parse_elem_text, skip_ws, text_end, text_ok, wf_chapter,
    wf_chapters, xml_decl,
};

verus! {

/// `skip_ws` never moves backwards and never runs past the end.
proof fn lemma_skip_ws_bounds(s: Seq<char>, i: int)
    requires
        0 <= i <= s.len(),
    ensures
        i <= skip_ws(s, i) <= s.len(),
    decreases s.len() - i,
{
    if i < s.len() && is_ws(s[i]) {
        lemma_skip_ws_bounds(s, i + 1);
    }
}

/// `text_end` never moves backwards and never runs past the end.
proof fn lemma_text_end_bounds(s: Seq<char>, i: int)
    requires
        0 <= i <= s.len(),
    ensures
        i <= text_end(s, i) <= s.len(),
    decreases s.len() - i,
{
    if i < s.len() && s[i] != '<' {
        lemma_text_end_bounds(s, i + 1);
    }
}

/// Every character strictly before `text_end` differs from `<`, so text
/// extracted by a parse can always be written back verbatim.
proof fn lemma_text_end_chars(s: Seq<char>, i: int)
    requires
        0 <= i <= s.len(),
    ensures
        forall|q: int| i <= q < text_end(s, i) ==> s[q] != '<',
        text_ok(s.subrange(i, text_end(s, i))),
    decreases s.len() - i,
{
    lemma_text_end_bounds(s, i);
    if i < s.len() && s[i] != '<' {
        lemma_text_end_chars(s, i + 1);
    }
    assert forall|q: int| 0 <= q < s.subrange(i, text_end(s, i)).len() implies s.subrange(
        i,
        text_end(s, i),
    )[q] != '<' by {
        assert(s.subrange(i, text_end(s, i))[q] == s[i + q]);
    }
}

/// Text read by `parse_elem_text` is verbatim-safe, and the parse moves
/// forward without running past the end.
proof fn lemma_elem_text_wf(s: Seq<char>, i: int, ot: Seq<char>, ct: Seq<char>)
    requires
        0 <= i <= s.len(),
        parse_elem_text(s, i, ot, ct) is Some,
    ensures
        match parse_elem_text(s, i, ot, ct) {
            Some((t, j)) => text_ok(t) && i <= j <= s.len(),
            None => true,
        },
{
    lemma_text_end_bounds(s, i + ot.len());
    lemma_text_end_chars(s, i + ot.len());
}

/// A parsed display title is verbatim-safe; the parse moves forward.
proof fn lemma_display_wf(s: Seq<char>, i: int)
    requires
        0 <= i <= s.len(),
        parse_display(s, i) is Some,
    ensures
        match parse_display(s, i) {
            Some((t, j)) => text_ok(t) && i <= j <= s.len(),
            None => true,
        },
{
    let j0 = skip_ws(s, i + open_display().len());
    lemma_skip_ws_bounds(s, i + open_display().len());
    lemma_elem_text_wf(s, j0, open_string(), close_string());
    let (_, k) = parse_elem_text(s, j0, open_string(), close_string())->Some_0;
    lemma_skip_ws_bounds(s, k);
}

/// A chapter read by `parse_atom_body` is well-formed; the parse moves
/// forward.
proof fn lemma_atom_body_wf(s: Seq<char>, i: int)
    requires
        0 <= i <= s.len(),
        parse_atom_body(s, i) is Some,
    ensures
        match parse_atom_body(s, i) {
            Some((c, j)) => wf_chapter(c) && i <= j <= s.len(),
            None => true,
        },
{
    let i0 = skip_ws(s, i);
    lemma_skip_ws_bounds(s, i);
    lemma_elem_text_wf(s, i0, open_time_start(), close_time_start());
    let (_, i1) = parse_elem_text(s, i0, open_time_start(), close_time_start())->Some_0;
    let i2 = skip_ws(s, i1);
    lemma_skip_ws_bounds(s, i1);
    if match_at(s, i2, open_time_end()) {
        lemma_elem_text_wf(s, i2, open_time_end(), close_time_end());
        let (_, i3) = parse_elem_text(s, i2, open_time_end(), close_time_end())->Some_0;
        lemma_skip_ws_bounds(s, i3);
        let i4 = skip_ws(s, i3);
        lemma_display_wf(s, i4);
        let (_, j) = parse_display(s, i4)->Some_0;
        lemma_skip_ws_bounds(s, j);
    } else {
        lemma_display_wf(s, i2);
        let (_, j) = parse_display(s, i2)->Some_0;
        lemma_skip_ws_bounds(s, j);
    }
}

/// Every chapter read by `parse_atoms` is well-formed; the final position
/// does not run past the end.
proof fn lemma_atoms_wf(s: Seq<char>, i: int)
    requires
        0 <= i <= s.len(),
        parse_atoms(s, i) is Some,
    ensures
        match parse_atoms(s, i) {
            Some((cs, e)) => wf_chapters(cs) && e <= s.len(),
            None => true,
        },
    decreases s.len() - i,
{
    let j = skip_ws(s, i);
    lemma_skip_ws_bounds(s, i);
    if match_at(s, j, close_edition()) {
    } else {
        let (c, k) = parse_atom_body(s, j + open_atom().len())->Some_0;
        lemma_atom_body_wf(s, j + open_atom().len());
        lemma_atoms_wf(s, k);
        let (rest, e) = parse_atoms(s, k)->Some_0;
        assert forall|q: int| 0 <= q < (seq![c] + rest).len() implies wf_chapter(
            (seq![c] + rest)[q],
        ) by {
            if q > 0 {
                assert((seq![c] + rest)[q] == rest[q - 1]);
            }
        }
    }
}

/// Every document a successful parse yields is well-formed: each of its
/// chapters' fields can be serialized verbatim.
pub proof fn lemma_parse_doc_wf(s: Seq<char>, cs: Seq<ChapterView>)
    requires
        parse_doc(s) == Some(cs),
    ensures
        wf_chapters(cs),
{
    let i0 = skip_ws(s, 0);
    lemma_skip_ws_bounds(s, 0);
    let i1 = if match_at(s, i0, xml_decl()) {
        skip_ws(s, i0 + xml_decl().len())
    } else {
        i0
    };
    if match_at(s, i0, xml_decl()) {
        lemma_skip_ws_bounds(s, i0 + xml_decl().len());
    }
    lemma_atoms_wf(s, i1 + open_edition().len());
}

/// The characters of `s` from position `i` to the end.
spec fn suffix(s: Seq<char>, i: int) -> Seq<char> {
    s.subrange(i, s.len() as int)
}

/// Peeling a known prefix off a suffix: the prefix matches in place and the
/// remainder is the suffix just past it.
proof fn lemma_peel(s: Seq<char>, i: int, t: Seq<char>, u: Seq<char>)
    requires
        0 <= i <= s.len(),
        suffix(s, i) == t + u,
    ensures
        match_at(s, i, t),
        i + t.len() <= s.len(),
        suffix(s, i + t.len()) == u,
{
    assert(suffix(s, i).len() == s.len() - i);
    assert(s.subrange(i, i + t.len()) =~= t) by {
        assert forall|q: int| 0 <= q < t.len() implies s.subrange(i, i + t.len())[q] == t[q] by {
            assert(s.subrange(i, i + t.len())[q] == s[i + q]);
            assert(suffix(s, i)[q] == s[i + q]);
        }
    }
    assert(suffix(s, i + t.len()) =~= u) by {
        assert forall|q: int| 0 <= q < u.len() implies suffix(s, i + t.len())[q] == u[q] by {
            assert(suffix(s, i + t.len())[q] == s[i + t.len() + q]);
            assert(suffix(s, i)[t.len() + q] == s[i + t.len() + q]);
        }
    }
}

/// Skipping whitespace at a non-whitespace character stays put.
proof fn lemma_no_skip(s: Seq<char>, i: int)
    requires
        0 <= i <= s.len(),
        i == s.len() || !is_ws(s[i]),
    ensures
        skip_ws(s, i) == i,
{
}

/// `text_end` stops exactly at the first `<` (or the end).
proof fn lemma_text_end_stops(s: Seq<char>, i: int, j: int)
    requires
        0 <= i <= j <= s.len(),
        forall|q: int| i <= q < j ==> s[q] != '<',
        j == s.len() || s[j] == '<',
    ensures
        text_end(s, i) == j,
    decreases j - i,
{
    if i < j {
        lemma_text_end_stops(s, i + 1, j);
    }
}

/// Reading verbatim text at a suffix made of that text followed by a tag.
proof fn lemma_text_at(s: Seq<char>, i: int, t: Seq<char>, u: Seq<char>)
    requires
        0 <= i <= s.len(),
        suffix(s, i) == t + u,
        text_ok(t),
        u.len() > 0,
        u[0] == '<',
    ensures
        i + t.len() < s.len(),
        text_end(s, i) == i + t.len(),
        s.subrange(i, i + t.len()) == t,
        suffix(s, i + t.len()) == u,
{
    lemma_peel(s, i, t, u);
    assert forall|q: int| i <= q < i + t.len() implies s[q] != '<' by {
        assert(suffix(s, i)[q - i] == s[q]);
        assert((t + u)[q - i] == t[q - i]);
    }
    assert(s[i + t.len()] == '<') by {
        assert(suffix(s, i + t.len())[0] == s[i + t.len()]);
    }
    lemma_text_end_stops(s, i, i + t.len());
}

/// Reading one element whose open tag, verbatim text, and close tag stand at
/// the head of a suffix.
proof fn lemma_elem_at(s: Seq<char>, i: int, ot: Seq<char>, ct: Seq<char>, t: Seq<char>, u: Seq<char>)
    requires
        0 <= i <= s.len(),
        suffix(s, i) == ot + t + ct + u,
        text_ok(t),
        ct.len() > 0,
        ct[0] == '<',
    ensures
        parse_elem_text(s, i, ot, ct) == Some((t, i + ot.len() + t.len() + ct.len())),
        i + ot.len() + t.len() + ct.len() <= s.len(),
        suffix(s, i + ot.len() + t.len() + ct.len()) == u,
{
    assert(suffix(s, i) =~= ot + (t + (ct + u)));
    lemma_peel(s, i, ot, t + (ct + u));
    assert((ct + u)[0] == ct[0]);
    lemma_text_at(s, i + ot.len(), t, ct + u);
    lemma_peel(s, i + ot.len() + t.len(), ct, u);
}

/// Reading a display element standing at the head of a suffix.
proof fn lemma_display_at(s: Seq<char>, i: int, title: Seq<char>, u: Seq<char>)
    requires
        0 <= i <= s.len(),
        suffix(s, i) == open_display() + open_string() + title + close_string() + close_display()
            + u,
        text_ok(title),
    ensures
        ({
            let e = i + open_display().len() + open_string().len() + title.len()
                + close_string().len() + close_display().len();
            &&& parse_display(s, i) == Some((title, e))
            &&& e <= s.len()
            &&& suffix(s, e) == u
        }),
{
    reveal_strlit("<ChapterDisplay>");
    reveal_strlit("<ChapterString>");
    reveal_strlit("</ChapterString>");
    reveal_strlit("</ChapterDisplay>");
    let rest = open_string() + title + close_string() + (close_display() + u);
    assert(suffix(s, i) =~= open_display() + rest);
    lemma_peel(s, i, open_display(), rest);
    let i1 = i + open_display().len();
    assert(s[i1] == '<') by {
        assert(suffix(s, i1)[0] == s[i1]);
        assert(rest[0] == open_string()[0]);
    }
    lemma_no_skip(s, i1);
    lemma_elem_at(s, i1, open_string(), close_string(), title, close_display() + u);
    let i2 = i1 + open_string().len() + title.len() + close_string().len();
    assert(s[i2] == '<') by {
        assert(suffix(s, i2)[0] == s[i2]);
        assert((close_display() + u)[0] == close_display()[0]);
    }
    lemma_no_skip(s, i2);
    lemma_peel(s, i2, close_display(), u);
}

/// Reading one whole chapter element standing at the head of a suffix.
proof fn lemma_atom_at(s: Seq<char>, i: int, c: ChapterView, u: Seq<char>)
    requires
        0 <= i <= s.len(),
        wf_chapter(c),
        suffix(s, i) == atom_xml(c) + u,
    ensures
        match_at(s, i, open_atom()),
        parse_atom_body(s, i + open_atom().len()) == Some((c, i + atom_xml(c).len())),
        i + atom_xml(c).len() <= s.len(),
        suffix(s, i + atom_xml(c).len()) == u,
{
    reveal_strlit("<ChapterAtom>");
    reveal_strlit("</ChapterAtom>");
    reveal_strlit("<ChapterTimeStart>");
    reveal_strlit("</ChapterTimeStart>");
    reveal_strlit("<ChapterTimeEnd>");
    reveal_strlit("</ChapterTimeEnd>");
    reveal_strlit("<ChapterDisplay>");
    let disp = open_display() + open_string() + c.title + close_string() + close_display();
    let u1 = end_xml(c.end) + (disp + (close_atom() + u));
    assert(suffix(s, i) =~= open_atom() + (open_time_start() + c.start + close_time_start() + u1));
    lemma_peel(s, i, open_atom(), open_time_start() + c.start + close_time_start() + u1);
    let i1 = i + open_atom().len();
    assert(s[i1] == '<') by {
        assert(suffix(s, i1)[0] == s[i1]);
        assert((open_time_start() + c.start + close_time_start() + u1)[0] == open_time_start()[0]);
    }
    lemma_no_skip(s, i1);
    lemma_elem_at(s, i1, open_time_start(), close_time_start(), c.start, u1);
    let i2 = i1 + open_time_start().len() + c.start.len() + close_time_start().len();
    match c.end {
        Some(endt) => {
            assert(suffix(s, i2) =~= open_time_end() + endt + close_time_end() + (disp
                + (close_atom() + u)));
            assert(s[i2] == '<') by {
                assert(suffix(s, i2)[0] == s[i2]);
            }
            lemma_no_skip(s, i2);
            lemma_elem_at(s, i2, open_time_end(), close_time_end(), endt, disp + (close_atom()
                + u));
            let i3 = i2 + open_time_end().len() + endt.len() + close_time_end().len();
            assert(s[i3] == '<') by {
                assert(suffix(s, i3)[0] == s[i3]);
                assert((disp + (close_atom() + u))[0] == open_display()[0]);
            }
            lemma_no_skip(s, i3);
            assert(suffix(s, i3) =~= open_display() + open_string() + c.title + close_string()
                + close_display() + (close_atom() + u));
            lemma_display_at(s, i3, c.title, close_atom() + u);
            let i4 = i3 + open_display().len() + open_string().len() + c.title.len()
                + close_string().len() + close_display().len();
            assert(s[i4] == '<') by {
                assert(suffix(s, i4)[0] == s[i4]);
                assert((close_atom() + u)[0] == close_atom()[0]);
            }
            lemma_no_skip(s, i4);
            lemma_peel(s, i4, close_atom(), u);
            assert(parse_atom_close(s, i3, c.start, Some(endt)) == Some(
                (c, i4 + close_atom().len()),
            )) by {
                assert(ChapterView { start: c.start, end: Some(endt), title: c.title } =~= c);
            }
        },
        None => {
            assert(suffix(s, i2) =~= open_display() + open_string() + c.title + close_string()
                + close_display() + (close_atom() + u));
            assert(s[i2] == '<') by {
                assert(suffix(s, i2)[0] == s[i2]);
            }
            lemma_no_skip(s, i2);
            assert(!match_at(s, i2, open_time_end())) by {
                if match_at(s, i2, open_time_end()) {
                    reveal_strlit("<ChapterTimeEnd>");
                    assert(s.subrange(i2, i2 + open_time_end().len())[8] == s[i2 + 8]);
                    assert(suffix(s, i2)[8] == s[i2 + 8]);
                }
            }
            lemma_display_at(s, i2, c.title, close_atom() + u);
            let i4 = i2 + open_display().len() + open_string().len() + c.title.len()
                + close_string().len() + close_display().len();
            assert(s[i4] == '<') by {
                assert(suffix(s, i4)[0] == s[i4]);
                assert((close_atom() + u)[0] == close_atom()[0]);
            }
            lemma_no_skip(s, i4);
            lemma_peel(s, i4, close_atom(), u);
            assert(parse_atom_close(s, i2, c.start, None) == Some((c, i4 + close_atom().len())))
                by {
                assert(ChapterView { start: c.start, end: None, title: c.title } =~= c);
            }
        },
    }
}

/// Reading a chapter list followed by the closing edition tag consumes the
/// whole rest of the text and yields exactly those chapters.
proof fn lemma_atoms_at(s: Seq<char>, i: int, cs: Seq<ChapterView>)
    requires
        0 <= i <= s.len(),
        wf_chapters(cs),
        suffix(s, i) == atoms_xml(cs) + close_edition(),
    ensures
        parse_atoms(s, i) == Some((cs, s.len() as int)),
    decreases cs.len(),
{
    reveal_strlit("<ChapterAtom>");
    reveal_strlit("</EditionEntry>");
    if cs.len() == 0 {
        assert(suffix(s, i) =~= close_edition() + Seq::<char>::empty());
        lemma_peel(s, i, close_edition(), Seq::<char>::empty());
        assert(s[i] == '<') by {
            assert(suffix(s, i)[0] == s[i]);
        }
        lemma_no_skip(s, i);
        assert(i + close_edition().len() == s.len()) by {
            assert(suffix(s, i).len() == s.len() - i);
        }
        assert(cs =~= Seq::<ChapterView>::empty());
    } else {
        assert(suffix(s, i) =~= atom_xml(cs[0]) + (atoms_xml(cs.drop_first()) + close_edition()));
        lemma_atom_at(s, i, cs[0], atoms_xml(cs.drop_first()) + close_edition());
        assert(s[i] == '<') by {
            assert(suffix(s, i)[0] == s[i]);
            assert((atom_xml(cs[0]) + (atoms_xml(cs.drop_first()) + close_edition()))[0]
                == atom_xml(cs[0])[0]);
            assert(atom_xml(cs[0])[0] == open_atom()[0]);
        }
        lemma_no_skip(s, i);
        assert(!match_at(s, i, close_edition())) by {
            if match_at(s, i, close_edition()) {
                assert(s.subrange(i, i + close_edition().len())[1] == s[i + 1]);
                assert(suffix(s, i)[1] == s[i + 1]);
                assert(atom_xml(cs[0])[1] == open_atom()[1]);
            }
        }
        let k = i + atom_xml(cs[0]).len();
        assert forall|q: int| 0 <= q < cs.drop_first().len() implies wf_chapter(
            cs.drop_first()[q],
        ) by {
            assert(cs.drop_first()[q] == cs[q + 1]);
        }
        lemma_atoms_at(s, k, cs.drop_first());
        assert(seq![cs[0]] + cs.drop_first() =~= cs);
    }
}

/// Serializing any well-formed chapter sequence and parsing the text back
/// yields exactly that sequence.
pub proof fn lemma_serialize_parse(cs: Seq<ChapterView>)
    requires
        wf_chapters(cs),
    ensures
        parse_doc(doc_xml(cs)) == Some(cs),
{
    reveal_strlit("<?xml version=\"1.0\"?>");
    reveal_strlit("\n");
    reveal_strlit("<EditionEntry>");
    let s = doc_xml(cs);
    assert(suffix(s, 0) =~= s);
    assert(s =~= xml_decl() + ("\n"@ + (open_edition() + (atoms_xml(cs) + close_edition()))));
    lemma_peel(s, 0, xml_decl(), "\n"@ + (open_edition() + (atoms_xml(cs) + close_edition())));
    assert(s[0] == '<') by {
        assert(suffix(s, 0)[0] == s[0]);
    }
    lemma_no_skip(s, 0);
    let d = xml_decl().len() as int;
    lemma_peel(s, d, "\n"@, open_edition() + (atoms_xml(cs) + close_edition()));
    assert(s[d] == '\n') by {
        assert(suffix(s, d)[0] == s[d]);
        assert(("\n"@ + (open_edition() + (atoms_xml(cs) + close_edition())))[0] == "\n"@[0]);
    }
    assert(s[d + 1] == '<') by {
        assert(suffix(s, d + 1)[0] == s[d + 1]);
        assert((open_edition() + (atoms_xml(cs) + close_edition()))[0] == open_edition()[0]);
    }
    assert(skip_ws(s, d) == skip_ws(s, d + 1));
    lemma_no_skip(s, d + 1);
    lemma_peel(s, d + 1, open_edition(), atoms_xml(cs) + close_edition());
    lemma_atoms_at(s, d + 1 + open_edition().len(), cs);
    assert(skip_ws(s, s.len() as int) == s.len());
}

/// Round trip: a document parsed successfully from XML text, serialized and
/// parsed again, yields the identical ordered chapter sequence.
pub proof fn lemma_parse_serialize_roundtrip(x: Seq<char>, cs: Seq<ChapterView>)
    requires
        parse_doc(x) == Some(cs),
    ensures
        parse_doc(doc_xml(cs)) == Some(cs),
{
    lemma_parse_doc_wf(x, cs);
    lemma_serialize_parse(cs);
}

} // verus!
