//! The chapter document model: one edition holding an ordered list of
//! chapter markers, each a named timestamp range.

use vstd::prelude::*;

verus! {

/// Ghost form of one chapter marker: the character sequences of its fields.
/// `end` is `None` for an open-ended chapter that extends to the next chapter
/// or to the end of the media.
#[verifier::ext_equal]
pub ghost struct ChapterView {
    pub start: Seq<char>,
    pub end: Option<Seq<char>>,
    pub title: Seq<char>,
}

/// The display entry of a chapter: its primary human-readable title.
#[derive(Debug)]
pub struct ChapterDisplay {
    pub title: String,
}

/// One named timestamp range.  `start_time` and `end_time` are string-encoded
/// timestamps (`HH:MM:SS.mmmmmmmmm`), preserved verbatim and never parsed
/// numerically by this layer.
#[derive(Debug)]
pub struct ChapterAtom {
    pub start_time: String,
    pub end_time: Option<String>,
    pub display: ChapterDisplay,
}

impl View for ChapterAtom {
    type V = ChapterView;

    open spec fn view(&self) -> ChapterView {
        ChapterView {
            start: self.start_time@,
            end: match self.end_time {
                Some(e) => Some(e@),
                None => None,
            },
            title: self.display.title@,
        }
    }
}

/// The views of a sequence of chapter atoms, in order.
pub open spec fn atoms_view(s: Seq<ChapterAtom>) -> Seq<ChapterView> {
    Seq::new(s.len(), |i: int| s[i]@)
}

/// The single edition wrapper holding the ordered chapter list.
#[derive(Debug)]
pub struct EditionEntry {
    pub chapters: Vec<ChapterAtom>,
}

impl View for EditionEntry {
    type V = Seq<ChapterView>;

    open spec fn view(&self) -> Seq<ChapterView> {
        atoms_view(self.chapters@)
    }
}

/// The root of one edition's chapter list.  A document always holds the
/// edition wrapper, even when the chapter sequence is empty.
#[derive(Debug)]
pub struct Chapters {
    pub edition_entry: EditionEntry,
}

/// The reason an extraction ran but produced no usable chapter XML:
/// either the external tool itself failed, or the container legitimately
/// holds no chapters.
#[derive(Clone, Copy, Debug, PartialEq, Eq, Structural)]
pub enum ExtractionReason {
    ToolFailure,
    NoChapters,
}

/// The closed set of failure kinds this library and its callers surface.
/// Only `MalformedInput` is produced by the model itself (by parsing);
/// the remaining kinds describe failures at the external-tool boundary.
#[derive(Clone, Copy, Debug, PartialEq, Eq, Structural)]
pub enum ChapterError {
    /// A required external tool is missing at its expected path.
    BinaryNotFound,
    /// The OS failed to spawn an external tool.
    ProcessLaunchFailed,
    /// The extraction tool ran but yielded no chapter XML.
    ExtractionFailed(ExtractionReason),
    /// Input XML did not conform to the chapter schema.
    MalformedInput,
    /// The chapter-writing tool exited with a failure status.
    CommitFailed,
}

impl View for Chapters {
    type V = Seq<ChapterView>;

    open spec fn view(&self) -> Seq<ChapterView> {
        self.edition_entry@
    }
}

impl Chapters {
    /// The chapters in stored order, for read-only traversal.
    pub fn iter(&self) -> (r: &Vec<ChapterAtom>)
        ensures
            atoms_view(r@) == self@,
    {
        &self.edition_entry.chapters
    }

    /// The chapters in stored order, for in-place mutation.
    pub fn iter_mut(&mut self) -> (r: &mut Vec<ChapterAtom>)
        ensures
            atoms_view(r@) == old(self)@,
            final(self)@ == atoms_view(final(r)@),
    {
        &mut self.edition_entry.chapters
    }

    /// Appends an open-ended chapter (no end time) with the given title and
    /// start time at the tail of the sequence; nothing is reordered.
    pub fn append_chapter(&mut self, title: &str, start_time: &str)
        ensures
            final(self)@ == old(self)@.push(
                ChapterView { start: start_time@, end: None, title: title@ },
            ),
    {
        let atom = ChapterAtom {
            start_time: String::from_str(start_time),
            end_time: None,
            display: ChapterDisplay { title: String::from_str(title) },
        };
        self.edition_entry.chapters.push(atom);
        proof {
            assert(self@ =~= old(self)@.push(
                ChapterView { start: start_time@, end: None, title: title@ },
            ));
        }
    }

    /// Renders the multi-line display text, one line per chapter in stored
    /// order, with `???` standing in for a missing end time.
    pub fn to_os_string(&self) -> (r: String)
        ensures
            r@ == display_text(self@),
    {
        let mut out = String::new();
        let mut i: usize = 0;
        let n = self.edition_entry.chapters.len();
        proof {
            assert(self@.take(0) =~= Seq::<ChapterView>::empty());
        }
        while i < n
            invariant
                n == self.edition_entry.chapters@.len(),
                i <= n,
                out@ == display_text(self@.take(i as int)),
            decreases n - i,
        {
            append_line(&mut out, &self.edition_entry.chapters[i]);
            proof {
                lemma_display_text_push(self@.take(i as int), self@[i as int]);
                assert(self@.take(i as int).push(self@[i as int]) =~= self@.take(i + 1 as int));
            }
            i = i + 1;
        }
        proof {
            assert(self@.take(n as int) =~= self@);
        }
        out
    }
}

/// The text shown in the `End:` column: the end time when present, the fixed
/// placeholder `???` when the chapter is open-ended.
pub open spec fn end_text(e: Option<Seq<char>>) -> Seq<char> {
    match e {
        Some(t) => t,
        None => "???"@,
    }
}

/// `n` space characters.
pub open spec fn spaces(n: nat) -> Seq<char>
    decreases n,
{
    if n == 0 {
        Seq::empty()
    } else {
        spaces((n - 1) as nat).push(' ')
    }
}

/// `t` left-aligned in a field of width `w`: padded with spaces on the right
/// when shorter, kept whole when already as wide.
pub open spec fn pad_to(t: Seq<char>, w: nat) -> Seq<char> {
    if t.len() >= w {
        t
    } else {
        t + spaces((w - t.len()) as nat)
    }
}

/// One display line for one chapter.
pub open spec fn line_of(c: ChapterView) -> Seq<char> {
    "Start: "@ + pad_to(c.start, 12) + " End: "@ + pad_to(end_text(c.end), 12) + " Title: "@
        + c.title + "\n"@
}

/// The display text of a chapter sequence: the lines in stored order.
pub open spec fn display_text(cs: Seq<ChapterView>) -> Seq<char>
    decreases cs.len(),
{
    if cs.len() == 0 {
        Seq::empty()
    } else {
        line_of(cs[0]) + display_text(cs.drop_first())
    }
}

/// A chapter with no end time renders with the fixed `???` placeholder in
/// the `End:` column, never with an empty field.
pub proof fn lemma_missing_end_renders_placeholder(c: ChapterView)
    requires
        c.end is None,
    ensures
        end_text(c.end) == "???"@,
        end_text(c.end).len() == 3,
{
    reveal_strlit("???");
}

/// Appending one chapter extends the display text by exactly that
/// chapter's line.
pub proof fn lemma_display_text_push(cs: Seq<ChapterView>, c: ChapterView)
    ensures
        display_text(cs.push(c)) == display_text(cs) + line_of(c),
    decreases cs.len(),
{
    if cs.len() == 0 {
        assert(cs.push(c).drop_first() =~= Seq::<ChapterView>::empty());
        assert(display_text(Seq::<ChapterView>::empty()) == Seq::<char>::empty());
        assert(cs.push(c)[0] == c);
        assert(display_text(cs.push(c)) == line_of(c) + Seq::<char>::empty());
        assert(line_of(c) + Seq::<char>::empty() =~= Seq::<char>::empty() + line_of(c));
        assert(cs =~= Seq::<ChapterView>::empty());
    } else {
        assert(cs.push(c).drop_first() =~= cs.drop_first().push(c));
        lemma_display_text_push(cs.drop_first(), c);
        assert(line_of(cs[0]) + (display_text(cs.drop_first()) + line_of(c)) =~= (line_of(cs[0])
            + display_text(cs.drop_first())) + line_of(c));
    }
}

/// Appends `t` left-aligned in a field of width 12.
fn append_padded(out: &mut String, t: &str)
    ensures
        final(out)@ == old(out)@ + pad_to(t@, 12),
{
    out.append(t);
    let mut k = t.unicode_len();
    proof {
        if t@.len() < 12 {
            assert(out@ =~= old(out)@ + t@ + spaces(0));
        }
    }
    while k < 12
        invariant
            t@.len() <= k <= 12 || (t@.len() >= 12 && k == t@.len()),
            k >= t@.len(),
            t@.len() < 12 ==> out@ == old(out)@ + t@ + spaces((k - t@.len()) as nat),
            t@.len() >= 12 ==> out@ == old(out)@ + t@,
        decreases 12 - k,
    {
        out.append(" ");
        proof {
            reveal_strlit(" ");
            assert(out@ =~= old(out)@ + t@ + spaces((k + 1 - t@.len()) as nat));
        }
        k = k + 1;
    }
}

/// Appends the display line of one chapter.
fn append_line(out: &mut String, c: &ChapterAtom)
    ensures
        final(out)@ == old(out)@ + line_of(c@),
{
    out.append("Start: ");
    append_padded(out, c.start_time.as_str());
    out.append(" End: ");
    match &c.end_time {
        Some(e) => {
            append_padded(out, e.as_str());
        },
        None => {
            append_padded(out, "???");
        },
    }
    out.append(" Title: ");
    out.append(c.display.title.as_str());
    out.append("\n");
    proof {
        assert(out@ =~= old(out)@ + line_of(c@));
    }
}

} // verus!
