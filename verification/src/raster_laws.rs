use vstd::prelude::*;
use crate::number::{is_float_text, usize_text_value};
use crate::raster::{data_length_check, metadata_from, window_cells};
use crate::text::{decimal, words};
use crate::text_laws::law_words_split_at_white_space;

verus! {

/// A cell file is accepted exactly when it holds four bytes for every cell of
/// the grid, and the grid's cell count fits in a `usize`; it then gives that
/// cell count.
pub proof fn law_data_length_exact(width: nat, height: nat, byte_len: nat)
    ensures
        data_length_check(width, height, byte_len) is Ok <==> (byte_len == 4 * (width * height)
            && width * height <= usize::MAX),
        data_length_check(width, height, byte_len) matches Ok(n) ==> n == width * height,
{
}

/// The window of rows `j0 .. j1` and columns `i0 .. i1` holds one cell for each
/// of its rows and columns, and its cell at row `r`, column `c` (counted from
/// the window's corner) is grid cell `(i0 + c, j0 + r)`.
pub proof fn law_window_cells<T>(cells: Seq<T>, width: int, i0: int, i1: int, j0: int, j1: int)
    requires
        0 <= i0 <= i1 <= width,
        0 <= j0 <= j1,
        j1 * width <= cells.len(),
    ensures
        window_cells(cells, width, i0, i1, j0, j1).len() == (i1 - i0) * (j1 - j0),
        forall|r: int, c: int|
            0 <= r < j1 - j0 && 0 <= c < i1 - i0 ==> #[trigger] window_cells(cells, width, i0, i1, j0, j1)[r * (i1 - i0) + c]
                == cells[(j0 + r) * width + i0 + c],
    decreases j1 - j0,
{
    let w = i1 - i0;
    if j1 > j0 {
        let k = j1 - 1 - j0;
        assert((j1 - 1) * width + width == j1 * width) by (nonlinear_arith);
        assert((j1 - 1) * width >= 0) by (nonlinear_arith)
            requires
                0 <= width,
                j1 >= 1,
        ;
        law_window_cells(cells, width, i0, i1, j0, j1 - 1);
        let prev = window_cells(cells, width, i0, i1, j0, j1 - 1);
        let row = cells.subrange((j1 - 1) * width + i0, (j1 - 1) * width + i1);
        let all = window_cells(cells, width, i0, i1, j0, j1);
        assert(all == prev + row);
        assert(prev.len() == w * k);
        assert(w * k + w == w * (j1 - j0)) by (nonlinear_arith)
            requires
                k == j1 - 1 - j0,
        ;
        assert forall|r: int, c: int| 0 <= r < j1 - j0 && 0 <= c < w implies #[trigger] all[r * w + c]
            == cells[(j0 + r) * width + i0 + c] by {
            if r < k {
                assert(r * w + c < k * w) by (nonlinear_arith)
                    requires
                        0 <= r < k,
                        0 <= c < w,
                ;
                assert(w * k == k * w) by (nonlinear_arith);
                assert(r * w + c >= 0) by (nonlinear_arith)
                    requires
                        0 <= r,
                        0 <= c,
                        0 <= w,
                ;
                assert(prev[r * w + c] == cells[(j0 + r) * width + i0 + c]);
            } else {
                assert(r == k);
                assert(r * w == w * k) by (nonlinear_arith)
                    requires
                        r == k,
                ;
                assert(all[r * w + c] == row[c]);
                assert(j0 + r == j1 - 1);
            }
        }
    } else {
        assert(w * (j1 - j0) == 0) by (nonlinear_arith)
            requires
                j1 == j0,
        ;
    }
}

/// Metadata is read from exactly six words: the first two the grid's width and
/// height as unsigned integers, the last four the georeference kept as each
/// word is written, sign and all. Six such words are always accepted; any
/// other number of words is refused with that number.
pub proof fn law_metadata_fields_as_written(text: Seq<char>)
    ensures
        metadata_from(text) matches Ok(m) ==> {
            let t = words(text);
            &&& t.len() == 6
            &&& usize_text_value(t[0]) == Some(m.width)
            &&& usize_text_value(t[1]) == Some(m.height)
            &&& m.x_min == t[2] && is_float_text(t[2])
            &&& m.y_max == t[3] && is_float_text(t[3])
            &&& m.x_res == t[4] && is_float_text(t[4])
            &&& m.y_res == t[5] && is_float_text(t[5])
        },
        ({
            let t = words(text);
            &&& t.len() == 6
            &&& usize_text_value(t[0]) is Some
            &&& usize_text_value(t[1]) is Some
            &&& is_float_text(t[2]) && is_float_text(t[3]) && is_float_text(t[4]) && is_float_text(t[5])
        }) ==> metadata_from(text) is Ok,
        words(text).len() != 6 ==> metadata_from(text) == Err::<crate::raster::MetadataView, Seq<char>>(
            "Expected 6 metadata fields, got "@ + decimal(words(text).len()),
        ),
{
}

/// A line break at the end of the metadata text, `\n` or `\r\n`, does not
/// change what it reads as.
pub proof fn law_metadata_line_ending(text: Seq<char>)
    ensures
        metadata_from(text + seq!['\r', '\n']) == metadata_from(text),
        metadata_from(text + seq!['\n']) == metadata_from(text),
{
    let e = Seq::<char>::empty();
    law_words_split_at_white_space(text, '\r', seq!['\n']);
    assert(text + seq!['\r'] + seq!['\n'] =~= text + seq!['\r', '\n']);
    law_words_split_at_white_space(e, '\n', e);
    assert(e + seq!['\n'] + e =~= seq!['\n']);
    assert(words(e) =~= Seq::<Seq<char>>::empty());
    assert(words(text) + words(seq!['\n']) =~= words(text));
    law_words_split_at_white_space(text, '\n', e);
    assert(text + seq!['\n'] + e =~= text + seq!['\n']);
    assert(words(text) + words(e) =~= words(text));
}

} // verus!
