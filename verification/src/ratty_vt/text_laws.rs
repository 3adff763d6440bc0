//! The text of a screen and the text of its rows.

use crate::ratty_vt::cell::CellModel;
use crate::ratty_vt::grid_model::{line_breaks_trimmed, rows_text};
use crate::ratty_vt::row::{row_text, span_end, text_read, RowModel};
use crate::ratty_vt::screen_model::ScreenModel;
use vstd::prelude::*;

verus! {

/// Texts with a line break between each two.
pub open spec fn lines_joined(texts: Seq<Seq<char>>) -> Seq<char>
    decreases texts.len(),
{
    if texts.len() == 0 {
        Seq::empty()
    } else if texts.len() == 1 {
        texts[0]
    } else {
        lines_joined(texts.drop_last()).push('\n') + texts.last()
    }
}

/// What is read is added to what there is.
proof fn lemma_text_read(out: Seq<char>, cells: Seq<CellModel>, start: int, end: int)
    ensures
        ({
            let read = text_read(Seq::empty(), cells, start, end);
            let after = text_read(out, cells, start, end);
            after.out == out + read.out && after.col == read.col && after.skip == read.skip
        }),
    decreases end - start,
{
    if end <= start {
        assert(out + Seq::<char>::empty() =~= out);
    } else {
        lemma_text_read(out, cells, start, end - 1);
        let read = text_read(Seq::empty(), cells, start, end);
        let after = text_read(out, cells, start, end);
        assert(after.out =~= out + read.out);
    }
}

proof fn lemma_rows_text(rows: Seq<RowModel>, n: int, cols: int)
    requires
        0 <= n <= rows.len(),
        forall|i: int| 0 <= i < rows.len() ==> !(#[trigger] rows[i]).wrapped,
    ensures
        ({
            let texts = Seq::new(
                n as nat,
                |i: int| row_text(Seq::empty(), rows[i], 0, cols, false),
            );
            let (text, wrapping) = rows_text(Seq::empty(), rows, n, cols);
            &&& !wrapping
            &&& n > 0 ==> text == lines_joined(texts).push('\n')
            &&& n == 0 ==> text.len() == 0
        }),
    decreases n,
{
    if n > 0 {
        lemma_rows_text(rows, n - 1, cols);
        let texts = Seq::new(n as nat, |i: int| row_text(Seq::empty(), rows[i], 0, cols, false));
        let earlier = Seq::new(
            (n - 1) as nat,
            |i: int| row_text(Seq::empty(), rows[i], 0, cols, false),
        );
        assert(texts.drop_last() =~= earlier);
        let (before, _) = rows_text(Seq::empty(), rows, n - 1, cols);
        let cells = rows[n - 1].cells;
        let end = span_end(0, cols, cells.len() as int);
        lemma_text_read(before, cells, 0, end);
        assert(!rows[n - 1].wrapped);
        assert(rows_text(Seq::empty(), rows, n, cols).0 =~= lines_joined(texts).push('\n'));
    }
}

/// Text without the line breaks at its end does not end with one.
proof fn lemma_trimmed(text: Seq<char>)
    ensures
        line_breaks_trimmed(text).len() > 0 ==> line_breaks_trimmed(text).last() != '\n',
    decreases text.len(),
{
    if text.len() > 0 && text.last() == '\n' {
        lemma_trimmed(text.drop_last());
    }
}

/// Where no row on view wraps, the text of a screen is that of its rows with a line break
/// between each two, without the line breaks at the end, and never ends with one.
pub proof fn law_contents_are_the_rows(screen: ScreenModel)
    requires
        screen.wf(),
        forall|i: int|
            0 <= i < screen.active().visible().len() ==> !(
            #[trigger] screen.active().visible()[i]).wrapped,
    ensures
        ({
            let text = screen.active().text(Seq::empty());
            let texts = screen.row_texts(0, screen.size().cols as int);
            &&& text == line_breaks_trimmed(lines_joined(texts))
            &&& text.len() > 0 ==> text.last() != '\n'
        }),
{
    let rows = screen.active().visible();
    let cols = screen.size().cols as int;
    let texts = screen.row_texts(0, cols);
    lemma_rows_text(rows, rows.len() as int, cols);
    assert(texts =~= Seq::new(
        rows.len(),
        |i: int| row_text(Seq::empty(), rows[i], 0, cols, false),
    ));
    let all = lines_joined(texts).push('\n');
    assert(all.drop_last() =~= lines_joined(texts));
    lemma_trimmed(lines_joined(texts));
}

} // verus!
