use vstd::prelude::*;
use crate::number::{float_text, is_float_text, parse_usize, usize_text_value};
use crate::text::{decimal, decimal_string, split_whitespace_str, words};

verus! {

/// The six fields of a raster's metadata text: the grid's size as integers,
/// and its georeference (left edge, top edge, cell width, cell height) as the
/// text of `f64` values, each checked to parse.
#[derive(Debug, PartialEq)]
pub struct MetadataFields {
    pub width: usize,
    pub height: usize,
    pub x_min: String,
    pub y_max: String,
    pub x_res: String,
    pub y_res: String,
}

/// The metadata fields as plain values.
pub struct MetadataView {
    pub width: nat,
    pub height: nat,
    pub x_min: Seq<char>,
    pub y_max: Seq<char>,
    pub x_res: Seq<char>,
    pub y_res: Seq<char>,
}

impl View for MetadataFields {
    type V = MetadataView;

    open spec fn view(&self) -> MetadataView {
        MetadataView {
            width: self.width as nat,
            height: self.height as nat,
            x_min: self.x_min@,
            y_max: self.y_max@,
            x_res: self.x_res@,
            y_res: self.y_res@,
        }
    }
}

/// What the metadata text `text` holds: six fields separated by white space,
/// the first two unsigned integers and the other four numbers; or the error
/// for the first field that is wrong.
pub open spec fn metadata_from(text: Seq<char>) -> Result<MetadataView, Seq<char>> {
    let t = words(text);
    if t.len() != 6 {
        Err("Expected 6 metadata fields, got "@ + decimal(t.len()))
    } else if usize_text_value(t[0]) is None {
        Err("invalid width"@)
    } else if usize_text_value(t[1]) is None {
        Err("invalid height"@)
    } else if !is_float_text(t[2]) {
        Err("invalid x_min"@)
    } else if !is_float_text(t[3]) {
        Err("invalid y_max"@)
    } else if !is_float_text(t[4]) {
        Err("invalid x_res"@)
    } else if !is_float_text(t[5]) {
        Err("invalid y_res"@)
    } else {
        Ok(
            MetadataView {
                width: usize_text_value(t[0])->Some_0,
                height: usize_text_value(t[1])->Some_0,
                x_min: t[2],
                y_max: t[3],
                x_res: t[4],
                y_res: t[5],
            },
        )
    }
}

/// Reads the metadata text of a raster.
pub fn parse_metadata(text: &str) -> (res: Result<MetadataFields, String>)
    ensures
        match res {
            Ok(m) => metadata_from(text@) == Ok::<MetadataView, Seq<char>>(m@),
            Err(e) => metadata_from(text@) == Err::<MetadataView, Seq<char>>(e@),
        },
{
    let tokens = split_whitespace_str(text);
    let n = tokens.len();
    if n != 6 {
        let mut e = String::from_str("Expected 6 metadata fields, got ");
        let count = decimal_string(n);
        e.append(count.as_str());
        return Err(e);
    }
    assert(tokens[0]@ == words(text@)[0]);
    assert(tokens[1]@ == words(text@)[1]);
    assert(tokens[2]@ == words(text@)[2]);
    assert(tokens[3]@ == words(text@)[3]);
    assert(tokens[4]@ == words(text@)[4]);
    assert(tokens[5]@ == words(text@)[5]);
    let width = match parse_usize(tokens[0]) {
        Some(w) => w,
        None => {
            return Err(String::from_str("invalid width"));
        },
    };
    let height = match parse_usize(tokens[1]) {
        Some(h) => h,
        None => {
            return Err(String::from_str("invalid height"));
        },
    };
    if !float_text(tokens[2]) {
        return Err(String::from_str("invalid x_min"));
    }
    if !float_text(tokens[3]) {
        return Err(String::from_str("invalid y_max"));
    }
    if !float_text(tokens[4]) {
        return Err(String::from_str("invalid x_res"));
    }
    if !float_text(tokens[5]) {
        return Err(String::from_str("invalid y_res"));
    }
    Ok(
        MetadataFields {
            width,
            height,
            x_min: String::from_str(tokens[2]),
            y_max: String::from_str(tokens[3]),
            x_res: String::from_str(tokens[4]),
            y_res: String::from_str(tokens[5]),
        },
    )
}

/// The grid's size must be positive in both directions.
pub fn check_dimensions(width: usize, height: usize) -> (res: Result<(), String>)
    ensures
        width == 0 ==> (res matches Err(e) && e@ == "Width not valid"@),
        width > 0 && height == 0 ==> (res matches Err(e) && e@ == "Height not valid"@),
        width > 0 && height > 0 ==> res is Ok,
{
    if width == 0 {
        return Err(String::from_str("Width not valid"));
    }
    if height == 0 {
        return Err(String::from_str("Height not valid"));
    }
    Ok(())
}

/// What a binary cell file of `byte_len` bytes gives for a `width` by `height`
/// grid of 4-byte cells: the number of cells, or why the file does not fit.
pub open spec fn data_length_check(width: nat, height: nat, byte_len: nat) -> Result<nat, Seq<char>> {
    if byte_len % 4 != 0 {
        Err("Binary length "@ + decimal(byte_len) + " is not divisible by 4"@)
    } else if width * height > usize::MAX {
        Err("Overflow with width and height: "@ + decimal(width) + " x "@ + decimal(height))
    } else if byte_len / 4 != width * height {
        Err(
            "Length of data does not match expected length found in metadata; Expected: "@
                + decimal(width * height) + ", Actual "@ + decimal(byte_len / 4),
        )
    } else {
        Ok(width * height)
    }
}

/// Checks that `byte_len` bytes of 4-byte cells fill a `width` by `height`
/// grid exactly, and gives the number of cells.
pub fn check_data_length(width: usize, height: usize, byte_len: usize) -> (res: Result<usize, String>)
    ensures
        match res {
            Ok(n) => data_length_check(width as nat, height as nat, byte_len as nat) == Ok::<nat, Seq<char>>(n as nat),
            Err(e) => data_length_check(width as nat, height as nat, byte_len as nat) == Err::<nat, Seq<char>>(e@),
        },
{
    if byte_len % 4 != 0 {
        let mut e = String::from_str("Binary length ");
        let b = decimal_string(byte_len);
        e.append(b.as_str());
        e.append(" is not divisible by 4");
        return Err(e);
    }
    let expected = match width.checked_mul(height) {
        Some(x) => x,
        None => {
            let mut e = String::from_str("Overflow with width and height: ");
            let w = decimal_string(width);
            e.append(w.as_str());
            e.append(" x ");
            let h = decimal_string(height);
            e.append(h.as_str());
            return Err(e);
        },
    };
    let actual = byte_len / 4;
    if actual != expected {
        let mut e = String::from_str(
            "Length of data does not match expected length found in metadata; Expected: ",
        );
        let x = decimal_string(expected);
        e.append(x.as_str());
        e.append(", Actual ");
        let a = decimal_string(actual);
        e.append(a.as_str());
        return Err(e);
    }
    Ok(expected)
}

/// A `width` by `height` grid of cells in row-major order: cell `(i, j)`, in
/// column `i` and row `j`, is `cells[j * width + i]`.
#[derive(Debug, PartialEq)]
pub struct Grid<T> {
    width: usize,
    height: usize,
    cells: Vec<T>,
}

/// A grid as plain values.
pub struct GridView<T> {
    pub width: nat,
    pub height: nat,
    pub cells: Seq<T>,
}

impl<T> View for Grid<T> {
    type V = GridView<T>;

    closed spec fn view(&self) -> GridView<T> {
        GridView { width: self.width as nat, height: self.height as nat, cells: self.cells@ }
    }
}

/// The cells of rows `j0 .. j1` and columns `i0 .. i1`, row by row, of a grid
/// `width` cells wide.
pub open spec fn window_cells<T>(cells: Seq<T>, width: int, i0: int, i1: int, j0: int, j1: int) -> Seq<T>
    decreases j1 - j0,
{
    if j1 <= j0 {
        Seq::<T>::empty()
    } else {
        window_cells(cells, width, i0, i1, j0, j1 - 1) + cells.subrange((j1 - 1) * width + i0, (j1 - 1) * width + i1)
    }
}

proof fn lemma_cell_in_grid(width: int, height: int, i: int, j: int)
    requires
        0 <= i < width,
        0 <= j < height,
    ensures
        0 <= j * width + i < width * height,
        j * width + i + 1 <= width * height,
{
    assert(j * width + i < width * height) by (nonlinear_arith)
        requires
            0 <= i < width,
            0 <= j < height,
    ;
    assert(0 <= j * width) by (nonlinear_arith)
        requires
            0 <= j,
            0 <= width,
    ;
}

proof fn lemma_row_before_last(width: int, i1: int, j: int, j1: int)
    requires
        0 <= width,
        0 <= i1,
        0 <= j < j1,
    ensures
        0 <= j * width,
        j * width + i1 <= (j1 - 1) * width + i1,
{
    assert(j * width <= (j1 - 1) * width) by (nonlinear_arith)
        requires
            0 <= width,
            j <= j1 - 1,
    ;
    assert(0 <= j * width) by (nonlinear_arith)
        requires
            0 <= j,
            0 <= width,
    ;
}

impl<T> Grid<T> {
    #[verifier::type_invariant]
    spec fn well_formed(self) -> bool {
        self.cells@.len() == self.width * self.height
    }

    /// A grid of `cells` in row-major order, when there are exactly
    /// `width * height` of them.
    pub fn new(width: usize, height: usize, cells: Vec<T>) -> (res: Option<Grid<T>>)
        ensures
            cells@.len() == width * height ==> (res matches Some(g) && g@ == GridView {
                width: width as nat,
                height: height as nat,
                cells: cells@,
            }),
            cells@.len() != width * height ==> res is None,
    {
        match width.checked_mul(height) {
            Some(n) => {
                if cells.len() == n {
                    Some(Grid { width, height, cells })
                } else {
                    None
                }
            },
            None => {
                let len = cells.len();
                assert(len as int <= usize::MAX);
                None
            },
        }
    }

    /// Number of columns.
    pub fn width(&self) -> (res: usize)
        ensures
            res == self@.width,
            self@.cells.len() == self@.width * self@.height,
    {
        proof {
            use_type_invariant(self);
        }
        self.width
    }

    /// Number of rows.
    pub fn height(&self) -> (res: usize)
        ensures
            res == self@.height,
            self@.cells.len() == self@.width * self@.height,
    {
        proof {
            use_type_invariant(self);
        }
        self.height
    }

    /// Cell `(i, j)`.
    pub fn get(&self, i: usize, j: usize) -> (res: &T)
        requires
            i < self@.width,
            j < self@.height,
        ensures
            *res == self@.cells[j * self@.width + i],
    {
        proof {
            use_type_invariant(self);
            lemma_cell_in_grid(self.width as int, self.height as int, i as int, j as int);
        }
        let len = self.cells.len();
        assert(j * self.width + i < len);
        &self.cells[j * self.width + i]
    }

    /// The column and row of cell indices `(i, j)`, when they lie in the grid.
    pub fn cell_index(&self, i: isize, j: isize) -> (res: Result<(usize, usize), String>)
        ensures
            (i < 0 || j < 0) ==> (res matches Err(e) && e@ == "Invalid coords: Negative indices"@),
            (0 <= i && 0 <= j && (i >= self@.width || j >= self@.height)) ==> (res matches Err(e)
                && e@ == "Invalid coords: Out of raster bounds"@),
            (0 <= i < self@.width && 0 <= j < self@.height) ==> res == Ok::<(usize, usize), String>((i as usize, j as usize)),
    {
        if i < 0 || j < 0 {
            return Err(String::from_str("Invalid coords: Negative indices"));
        }
        let iu = i as usize;
        let ju = j as usize;
        if iu >= self.width || ju >= self.height {
            return Err(String::from_str("Invalid coords: Out of raster bounds"));
        }
        Ok((iu, ju))
    }
}

impl<T: Copy> Grid<T> {
    /// The cells of rows `j0 .. j1` and columns `i0 .. i1`, row by row. Each
    /// row is read as the run of `i1 - i0` cells that starts at cell `(i0, j)`
    /// in row-major order, which must end within the grid.
    pub fn window(&self, i0: usize, i1: usize, j0: usize, j1: usize) -> (res: Vec<T>)
        requires
            i0 <= i1,
            j0 <= j1,
            j0 < j1 ==> (j1 - 1) * self@.width + i1 <= self@.width * self@.height,
        ensures
            res@ == window_cells(self@.cells, self@.width as int, i0 as int, i1 as int, j0 as int, j1 as int),
    {
        proof {
            use_type_invariant(self);
        }
        let len = self.cells.len();
        let mut out: Vec<T> = Vec::new();
        let mut j: usize = j0;
        while j < j1
            invariant
                j0 <= j <= j1,
                i0 <= i1,
                j0 < j1 ==> (j1 - 1) * self.width + i1 <= self.width * self.height,
                self.cells@.len() == self.width * self.height,
                len == self.cells@.len(),
                out@ == window_cells(self.cells@, self.width as int, i0 as int, i1 as int, j0 as int, j as int),
            decreases j1 - j,
        {
            proof {
                lemma_row_before_last(self.width as int, i1 as int, j as int, j1 as int);
            }
            let row = j * self.width;
            let ghost before = out@;
            let mut i: usize = i0;
            while i < i1
                invariant
                    i0 <= i <= i1,
                    row == j * self.width,
                    row + i1 <= self.cells@.len(),
                    len == self.cells@.len(),
                    out@ == before + self.cells@.subrange(row + i0, row + i),
                decreases i1 - i,
            {
                out.push(self.cells[row + i]);
                assert(self.cells@.subrange(row + i0, row + i + 1) =~= self.cells@.subrange(row + i0, row + i).push(self.cells@[row + i]));
                i = i + 1;
            }
            j = j + 1;
        }
        out
    }
}

} // verus!
