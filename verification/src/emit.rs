//! Serialization of a chapter document to its canonical XML text.

use vstd::prelude::*;

use crate::chapters::{ChapterAtom, ChapterView, Chapters};
use crate::xml::{atom_xml, atoms_xml, doc_xml, lemma_atoms_xml_push, open_edition, xml_decl};

verus! {

/// Emits the canonical XML text of one chapter element.
fn append_atom(out: &mut String, c: &ChapterAtom)
    ensures
        final(out)@ == old(out)@ + atom_xml(c@),
{
    out.append("<ChapterAtom>");
    out.append("<ChapterTimeStart>");
    out.append(c.start_time.as_str());
    out.append("</ChapterTimeStart>");
    match &c.end_time {
        Some(e) => {
            out.append("<ChapterTimeEnd>");
            out.append(e.as_str());
            out.append("</ChapterTimeEnd>");
        },
        None => {},
    }
    out.append("<ChapterDisplay>");
    out.append("<ChapterString>");
    out.append(c.display.title.as_str());
    out.append("</ChapterString>");
    out.append("</ChapterDisplay>");
    out.append("</ChapterAtom>");
    proof {
        assert(out@ =~= old(out)@ + atom_xml(c@));
    }
}

/// Serializes the document to XML: the declaration header, a line break, and
/// the edition element with the chapters in stored order, an end-time element
/// appearing exactly where one is present.
pub fn chapters_to_xml(doc: &Chapters) -> (r: String)
    ensures
        r@ == doc_xml(doc@),
{
    let mut out = String::new();
    out.append("<?xml version=\"1.0\"?>");
    out.append("\n");
    out.append("<EditionEntry>");
    proof {
        assert(doc@.take(0) =~= Seq::<ChapterView>::empty());
        assert(out@ =~= xml_decl() + "\n"@ + open_edition() + atoms_xml(doc@.take(0)));
    }
    let mut i: usize = 0;
    let n = doc.edition_entry.chapters.len();
    while i < n
        invariant
            n == doc.edition_entry.chapters@.len(),
            i <= n,
            out@ == xml_decl() + "\n"@ + open_edition() + atoms_xml(doc@.take(i as int)),
        decreases n - i,
    {
        append_atom(&mut out, &doc.edition_entry.chapters[i]);
        proof {
            lemma_atoms_xml_push(doc@.take(i as int), doc@[i as int]);
            assert(doc@.take(i as int).push(doc@[i as int]) =~= doc@.take(i + 1 as int));
            assert(out@ =~= xml_decl() + "\n"@ + open_edition() + atoms_xml(doc@.take(i + 1 as int)));
        }
        i = i + 1;
    }
    out.append("</EditionEntry>");
    proof {
        assert(doc@.take(n as int) =~= doc@);
        assert(out@ =~= doc_xml(doc@));
    }
    out
}

} // verus!
