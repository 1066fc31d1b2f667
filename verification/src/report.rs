//! The report of a run: messages collected by chapter and written out at
//! the end.

use crate::text::{join, push_str_chars, string_of, string_views};
use vstd::prelude::*;

verus! {

/// The chapters of the report, in the order in which they are written.
#[derive(Clone, Copy, Debug, PartialEq, Eq, Structural)]
pub enum Chapter {
    Summary,
    Ingest,
    Analysis,
    Details,
    Issues,
}

/// The place of a chapter in the report.
pub open spec fn chapter_index(c: Chapter) -> int {
    match c {
        Chapter::Summary => 0,
        Chapter::Ingest => 1,
        Chapter::Analysis => 2,
        Chapter::Details => 3,
        Chapter::Issues => 4,
    }
}

/// The title of the chapter at a place.
pub open spec fn chapter_title(i: int) -> Seq<char> {
    if i == 0 {
        "Summary"@
    } else if i == 1 {
        "Ingest"@
    } else if i == 2 {
        "Analysis"@
    } else if i == 3 {
        "Details"@
    } else {
        "Issues"@
    }
}

/// The text of one chapter: its title, its messages one per line, and an
/// empty line.
pub open spec fn chapter_text(i: int, messages: Seq<Seq<char>>) -> Seq<char> {
    chapter_title(i) + seq!['\n'] + join(messages, seq!['\n']) + seq!['\n', '\n']
}

/// The texts of the chapters.
pub open spec fn chapter_texts(chapters: Seq<Seq<Seq<char>>>) -> Seq<Seq<char>> {
    Seq::new(chapters.len(), |i: int| chapter_text(i, chapters[i]))
}

/// The text of the report: the chapters in their order, with a line break
/// between two of them.
pub open spec fn report_text(chapters: Seq<Seq<Seq<char>>>) -> Seq<char> {
    join(chapter_texts(chapters), seq!['\n'])
}

/// The chapters with one more message in the chapter at `at`. Chapters up
/// to that one are opened where they are not there yet.
pub open spec fn with_message(chapters: Seq<Seq<Seq<char>>>, at: int, msg: Seq<char>) -> Seq<
    Seq<Seq<char>>,
> {
    let opened = if chapters.len() > at {
        chapters
    } else {
        chapters + Seq::new((at + 1 - chapters.len()) as nat, |i: int| Seq::<Seq<char>>::empty())
    };
    opened.update(at, opened[at].push(msg))
}

/// The messages of a run, by chapter.
#[derive(Debug)]
pub struct Report {
    chapters: Vec<Vec<String>>,
}

impl View for Report {
    type V = Seq<Seq<Seq<char>>>;

    closed spec fn view(&self) -> Seq<Seq<Seq<char>>> {
        self.chapters@.map_values(|c: Vec<String>| string_views(c@))
    }
}

impl Chapter {
    /// The place of the chapter in the report.
    pub fn index(self) -> (i: usize)
        ensures
            i == chapter_index(self),
    {
        match self {
            Chapter::Summary => 0,
            Chapter::Ingest => 1,
            Chapter::Analysis => 2,
            Chapter::Details => 3,
            Chapter::Issues => 4,
        }
    }

    /// The title of the chapter.
    pub fn title(self) -> (r: &'static str)
        ensures
            r@ == chapter_title(chapter_index(self)),
    {
        match self {
            Chapter::Summary => "Summary",
            Chapter::Ingest => "Ingest",
            Chapter::Analysis => "Analysis",
            Chapter::Details => "Details",
            Chapter::Issues => "Issues",
        }
    }
}

/// The title of the chapter at a place.
fn title_at(i: usize) -> (r: &'static str)
    ensures
        r@ == chapter_title(i as int),
{
    if i == 0 {
        "Summary"
    } else if i == 1 {
        "Ingest"
    } else if i == 2 {
        "Analysis"
    } else if i == 3 {
        "Details"
    } else {
        "Issues"
    }
}

impl Report {
    /// A report without messages.
    pub fn new() -> (r: Self)
        ensures
            r@.len() == 0,
    {
        Report { chapters: Vec::new() }
    }

    /// Appends a message to a chapter. Tells whether the message is to be
    /// shown at once as well, which holds for the summary.
    pub fn report(&mut self, chapter: Chapter, msg: String) -> (echo: bool)
        ensures
            final(self)@ == with_message(old(self)@, chapter_index(chapter), msg@),
            echo == (chapter == Chapter::Summary),
    {
        let at = chapter.index();
        let ghost start = self@;
        while self.chapters.len() <= at
            invariant
                at < 5,
                self.chapters.len() >= start.len(),
                self.chapters.len() <= at + 1 || self.chapters.len() == start.len(),
                self@ == start + Seq::new(
                    (self.chapters.len() - start.len()) as nat,
                    |i: int| Seq::<Seq<char>>::empty(),
                ),
            decreases at + 1 - self.chapters.len(),
        {
            let ghost before = self@;
            let fresh: Vec<String> = Vec::new();
            self.chapters.push(fresh);
            assert(string_views(fresh@) =~= Seq::<Seq<char>>::empty());
            assert(self@ =~= before.push(Seq::<Seq<char>>::empty()));
            assert(self@ =~= start + Seq::new(
                (self.chapters.len() - start.len()) as nat,
                |i: int| Seq::<Seq<char>>::empty(),
            ));
        }
        let ghost opened = self@;
        assert(start.len() > at ==> opened =~= start);
        let ghost before = self.chapters@[at as int]@;
        self.chapters[at].push(msg);
        proof {
            assert(string_views(self.chapters@[at as int]@) =~= string_views(before).push(msg@));
            assert(self@ =~= opened.update(at as int, opened[at as int].push(msg@)));
        }
        match chapter {
            Chapter::Summary => true,
            _ => false,
        }
    }

    /// The number of chapters that have been opened.
    pub fn chapters(&self) -> (n: usize)
        ensures
            n == self@.len(),
    {
        self.chapters.len()
    }

    /// The messages of a chapter so far; none where it is not opened.
    pub fn messages(&self, chapter: Chapter) -> (r: Vec<String>)
        ensures
            string_views(r@) == if chapter_index(chapter) < self@.len() {
                self@[chapter_index(chapter)]
            } else {
                Seq::<Seq<char>>::empty()
            },
    {
        let at = chapter.index();
        if at < self.chapters.len() {
            crate::cchain_stats::clone_names(&self.chapters[at])
        } else {
            let r: Vec<String> = Vec::new();
            assert(string_views(r@) =~= Seq::<Seq<char>>::empty());
            r
        }
    }

    /// The text of the report. The report is empty afterwards and can take
    /// new messages.
    pub fn write_report(&mut self) -> (text: String)
        ensures
            text@ == report_text(old(self)@),
            final(self)@.len() == 0,
    {
        let ghost all = self@;
        let ghost texts = chapter_texts(all);
        let mut buf: Vec<char> = Vec::new();
        let mut idx: usize = 0;
        assert(texts.take(0) =~= Seq::<Seq<char>>::empty());
        while idx < self.chapters.len()
            invariant
                idx <= self.chapters.len(),
                all == self@,
                texts == chapter_texts(all),
                buf@ == join(texts.take(idx as int), seq!['\n']),
            decreases self.chapters.len() - idx,
        {
            proof {
                assert(texts.take(idx + 1).drop_last() =~= texts.take(idx as int));
                assert(texts.take(idx + 1).last() == chapter_text(idx as int, all[idx as int]));
            }
            if idx > 0 {
                buf.push('\n');
            }
            let ghost joined = buf@;
            push_str_chars(&mut buf, title_at(idx));
            buf.push('\n');
            let lines = &self.chapters[idx];
            let ghost msgs = string_views(lines@);
            assert(msgs == all[idx as int]);
            let ghost head = buf@;
            let mut j: usize = 0;
            assert(msgs.take(0) =~= Seq::<Seq<char>>::empty());
            assert(buf@ =~= head + join(msgs.take(0), seq!['\n']));
            while j < lines.len()
                invariant
                    j <= lines.len(),
                    msgs == string_views(lines@),
                    buf@ == head + join(msgs.take(j as int), seq!['\n']),
                decreases lines.len() - j,
            {
                proof {
                    assert(msgs.take(j + 1).drop_last() =~= msgs.take(j as int));
                    assert(msgs.take(j + 1).last() == lines@[j as int]@);
                }
                if j > 0 {
                    buf.push('\n');
                }
                push_str_chars(&mut buf, lines[j].as_str());
                proof {
                    if j > 0 {
                        assert(buf@ =~= head + (join(msgs.take(j as int), seq!['\n']) + seq!['\n']
                            + lines@[j as int]@));
                    } else {
                        assert(buf@ =~= head + lines@[j as int]@);
                    }
                }
                j += 1;
            }
            assert(msgs.take(lines.len() as int) =~= msgs);
            buf.push('\n');
            buf.push('\n');
            proof {
                let block = chapter_text(idx as int, msgs);
                assert(buf@ =~= joined + block);
                if idx > 0 {
                    assert(buf@ =~= join(texts.take(idx as int), seq!['\n']) + seq!['\n'] + block);
                } else {
                    assert(buf@ =~= block);
                }
            }
            idx += 1;
        }
        assert(texts.take(self.chapters.len() as int) =~= texts);
        self.chapters = Vec::new();
        string_of(&buf)
    }
}

} // verus!
