//! The document writer: pages of draw commands, written in order and
//! never changed once the next page is begun.

use crate::chars::to_text;
use vstd::prelude::*;

verus! {

/// The two faces that text is set in.
#[derive(Debug, Clone, Copy, PartialEq, Eq)]
pub enum Font {
    Regular,
    Bold,
}

/// One thing drawn on a page.
#[derive(Debug, Clone, PartialEq, Eq)]
pub enum DrawCommand {
    /// A run of text whose baseline starts at `(x, y)`, in micrometres
    /// from the lower left corner of the page; `size` is in thousandths
    /// of a point.
    Text { x: i64, y: i64, size: i64, font: Font, text: String },
    /// A straight line from `(x1, y1)` to `(x2, y2)`.
    Line { x1: i64, y1: i64, x2: i64, y2: i64 },
}

/// What a [`DrawCommand`] draws, as mathematical values.
pub enum Mark {
    Text { x: int, y: int, size: int, font: Font, text: Seq<char> },
    Line { x1: int, y1: int, x2: int, y2: int },
}

impl View for DrawCommand {
    type V = Mark;

    open spec fn view(&self) -> Mark {
        match *self {
            DrawCommand::Text { x, y, size, font, text } => Mark::Text {
                x: x as int,
                y: y as int,
                size: size as int,
                font,
                text: text@,
            },
            DrawCommand::Line { x1, y1, x2, y2 } => Mark::Line {
                x1: x1 as int,
                y1: y1 as int,
                x2: x2 as int,
                y2: y2 as int,
            },
        }
    }
}

/// A page: its draw commands in the order in which they were written.
#[derive(Debug, Clone, PartialEq, Eq)]
pub struct Page {
    pub commands: Vec<DrawCommand>,
}

impl View for Page {
    type V = Seq<Mark>;

    open spec fn view(&self) -> Seq<Mark> {
        self.commands@.map_values(|c: DrawCommand| c@)
    }
}

/// The pages of a document as mathematical values.
pub type Pages = Seq<Seq<Mark>>;

/// `pages` with `m` drawn on the last page.
pub open spec fn put(pages: Pages, m: Mark) -> Pages {
    if pages.len() > 0 {
        pages.update(pages.len() - 1, pages.last().push(m))
    } else {
        pages
    }
}

/// `pages` with a new, empty last page.
pub open spec fn turn(pages: Pages) -> Pages {
    pages.push(Seq::empty())
}

/// Whether `new` has more than `n` pages and its first `n` pages are the
/// first `n` pages of `old`, unchanged.
pub open spec fn keeps(new: Pages, old: Pages, n: int) -> bool {
    0 <= n <= old.len() && n < new.len() && forall|i: int| 0 <= i < n ==> new[i] == old[i]
}

/// Drawing changes the last page only, and a new page changes none: both
/// keep what [`keeps`] says.
pub proof fn lemma_keeps_writing(new: Pages, old: Pages, n: int, m: Mark)
    requires
        keeps(new, old, n),
    ensures
        keeps(put(new, m), old, n),
        keeps(turn(new), old, n),
{
}

/// A document keeps all of its pages but the last, whatever is written
/// next.
pub proof fn lemma_keeps_itself(pages: Pages)
    requires
        pages.len() >= 1,
    ensures
        keeps(pages, pages, pages.len() - 1),
        keeps(turn(pages), pages, pages.len() as int),
{
}

/// Whether a mark is no text with its baseline under `limit`.
pub open spec fn text_at_least(m: Mark, limit: int) -> bool {
    match m {
        Mark::Text { y, .. } => y >= limit,
        Mark::Line { .. } => true,
    }
}

/// Whether no text on `pages` has its baseline under `limit`.
pub open spec fn texts_above(pages: Pages, limit: int) -> bool {
    forall|i: int, j: int|
        0 <= i < pages.len() && 0 <= j < pages[i].len() ==> text_at_least(
            #[trigger] pages[i][j],
            limit,
        )
}

/// Pages without text under a limit stay so when such a mark is drawn,
/// and when a new page begins.
pub proof fn lemma_texts_above_writing(pages: Pages, m: Mark, limit: int)
    requires
        texts_above(pages, limit),
    ensures
        text_at_least(m, limit) ==> texts_above(put(pages, m), limit),
        texts_above(turn(pages), limit),
{
    let turned = turn(pages);
    assert forall|i: int, j: int| 0 <= i < turned.len() && 0 <= j < turned[i].len() implies text_at_least(
        #[trigger] turned[i][j],
        limit,
    ) by {
        if i < pages.len() {
            assert(turned[i][j] == pages[i][j]);
        }
    }
    if text_at_least(m, limit) {
        let drawn = put(pages, m);
        assert forall|i: int, j: int| 0 <= i < drawn.len() && 0 <= j < drawn[i].len() implies text_at_least(
            #[trigger] drawn[i][j],
            limit,
        ) by {
            if i == pages.len() - 1 && j == pages[i].len() {
            } else {
                assert(drawn[i][j] == pages[i][j]);
            }
        }
    }
}

/// The texts of the runs among the first `n` marks of a page, in the
/// order in which they were drawn.
pub open spec fn page_runs(page: Seq<Mark>, n: int) -> Seq<Seq<char>>
    decreases n,
{
    if n <= 0 {
        Seq::empty()
    } else {
        match page[n - 1] {
            Mark::Text { text, .. } => page_runs(page, n - 1).push(text),
            Mark::Line { .. } => page_runs(page, n - 1),
        }
    }
}

/// The texts of the runs on the first `n` pages, page by page.
pub open spec fn runs_upto(pages: Pages, n: int) -> Seq<Seq<char>>
    decreases n,
{
    if n <= 0 {
        Seq::empty()
    } else {
        runs_upto(pages, n - 1) + page_runs(pages[n - 1], pages[n - 1].len() as int)
    }
}

/// The texts of all runs of a document, in the order in which they were
/// drawn.
pub open spec fn runs(pages: Pages) -> Seq<Seq<char>> {
    runs_upto(pages, pages.len() as int)
}

/// The runs among the first `n` marks depend on those marks alone.
pub proof fn lemma_page_runs_prefix(a: Seq<Mark>, b: Seq<Mark>, n: int)
    requires
        0 <= n <= a.len(),
        n <= b.len(),
        forall|i: int| 0 <= i < n ==> a[i] == b[i],
    ensures
        page_runs(a, n) == page_runs(b, n),
    decreases n,
{
    if n > 0 {
        lemma_page_runs_prefix(a, b, n - 1);
    }
}

/// The runs on the first `n` pages depend on those pages alone.
pub proof fn lemma_runs_prefix(a: Pages, b: Pages, n: int)
    requires
        0 <= n <= a.len(),
        n <= b.len(),
        forall|i: int| 0 <= i < n ==> a[i] == b[i],
    ensures
        runs_upto(a, n) == runs_upto(b, n),
    decreases n,
{
    if n > 0 {
        lemma_runs_prefix(a, b, n - 1);
    }
}

/// What writing does to the runs of a document: a run of text is added
/// behind all others, a line adds none, and a new page changes none.
pub proof fn lemma_runs_writing(pages: Pages, m: Mark)
    requires
        pages.len() >= 1,
    ensures
        runs(turn(pages)) == runs(pages),
        runs(put(pages, m)) == match m {
            Mark::Text { text, .. } => runs(pages).push(text),
            Mark::Line { .. } => runs(pages),
        },
{
    let n = pages.len() as int;
    let turned = turn(pages);
    lemma_runs_prefix(turned, pages, n);
    assert(page_runs(turned[n], 0) =~= Seq::<Seq<char>>::empty());
    assert(runs_upto(turned, n + 1) =~= runs_upto(turned, n));
    let drawn = put(pages, m);
    let last = pages[n - 1];
    lemma_runs_prefix(drawn, pages, n - 1);
    assert(drawn[n - 1] == last.push(m));
    lemma_page_runs_prefix(last.push(m), last, last.len() as int);
    let before = runs_upto(pages, n - 1);
    let on_last = page_runs(last, last.len() as int);
    assert(runs(pages) == before + on_last);
    match m {
        Mark::Text { text, .. } => {
            assert(page_runs(last.push(m), last.len() as int + 1) == on_last.push(text));
            assert(before + on_last.push(text) =~= (before + on_last).push(text));
        },
        Mark::Line { .. } => {
            assert(page_runs(last.push(m), last.len() as int + 1) == on_last);
        },
    }
}

/// A document: one or more pages, the last of which is being written.
#[derive(Debug, Clone, PartialEq, Eq)]
pub struct Document {
    pub pages: Vec<Page>,
}

impl View for Document {
    type V = Pages;

    open spec fn view(&self) -> Pages {
        self.pages@.map_values(|p: Page| p@)
    }
}

impl Document {
    /// Whether the document has a page to write on.
    pub open spec fn wf(&self) -> bool {
        self.pages@.len() >= 1
    }

    /// A document of one empty page.
    pub fn new() -> (d: Document)
        ensures
            d.wf(),
            d@ == seq![Seq::<Mark>::empty()],
    {
        let mut pages: Vec<Page> = Vec::new();
        let page = Page { commands: Vec::new() };
        assert(page@ =~= Seq::<Mark>::empty());
        pages.push(page);
        let d = Document { pages };
        assert(d@ =~= seq![Seq::<Mark>::empty()]);
        d
    }

    /// The number of pages.
    pub fn page_count(&self) -> (n: usize)
        ensures
            n == self@.len(),
    {
        self.pages.len()
    }

    /// Begins a new page. The pages before it stay as they are.
    pub fn add_page(&mut self)
        ensures
            final(self).wf(),
            final(self)@ == turn(old(self)@),
    {
        let page = Page { commands: Vec::new() };
        assert(page@ =~= Seq::<Mark>::empty());
        self.pages.push(page);
        assert(self@ =~= turn(old(self)@));
    }

    /// Draws a command on the last page.
    fn draw(&mut self, command: DrawCommand)
        requires
            old(self).wf(),
        ensures
            final(self).wf(),
            final(self)@ == put(old(self)@, command@),
    {
        let n = self.pages.len();
        let ghost m = command@;
        let ghost before = self.pages@[n - 1]@;
        self.pages[n - 1].commands.push(command);
        assert(self.pages@[n - 1]@ =~= before.push(m));
        assert(self@ =~= put(old(self)@, m));
    }

    /// Draws a run of text on the last page.
    pub fn draw_text(&mut self, x: i64, y: i64, size: i64, font: Font, text: &[char])
        requires
            old(self).wf(),
        ensures
            final(self).wf(),
            final(self)@ == put(
                old(self)@,
                Mark::Text { x: x as int, y: y as int, size: size as int, font, text: text@ },
            ),
    {
        self.draw(DrawCommand::Text { x, y, size, font, text: to_text(text) });
    }

    /// Draws a straight line on the last page.
    pub fn draw_line(&mut self, x1: i64, y1: i64, x2: i64, y2: i64)
        requires
            old(self).wf(),
        ensures
            final(self).wf(),
            final(self)@ == put(
                old(self)@,
                Mark::Line { x1: x1 as int, y1: y1 as int, x2: x2 as int, y2: y2 as int },
            ),
    {
        self.draw(DrawCommand::Line { x1, y1, x2, y2 });
    }
}

} // verus!
