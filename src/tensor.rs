use vstd::prelude::*;

verus! {

/// Width of every tile: each matrix dimension must be a positive multiple of it.
pub const BLOCK_SIZE: usize = 16;

/// Why a shape was rejected when a tensor view was built.
#[derive(Debug, Clone, Copy, PartialEq, Eq, Structural)]
pub enum ShapeError {
    /// The shape does not have exactly two dimensions.
    Rank,
    /// A dimension is zero or not a multiple of `BLOCK_SIZE`.
    NotBlockMultiple,
    /// The data length differs from the product of the dimensions.
    DataLength,
}

/// Why a kernel refused to run; nothing is written to the output then.
#[derive(Debug, Clone, Copy, PartialEq, Eq, Structural)]
pub enum GemmError {
    /// A transposed operand was requested.
    Unsupported,
    /// The columns of the left operand differ from the rows of the right one.
    Incompatible,
    /// The output length is not rows(left) times columns(right).
    Size,
}

/// Is `d` a dimension that a tensor view accepts?
pub open spec fn block_dim(d: int) -> bool {
    d > 0 && d % (BLOCK_SIZE as int) == 0
}

/// Is `shape` a shape accepted for `len` elements?
pub open spec fn shape_ok(shape: Seq<usize>, len: int) -> bool {
    &&& shape.len() == 2
    &&& block_dim(shape[0] as int)
    &&& block_dim(shape[1] as int)
    &&& len == shape[0] * shape[1]
}

/// A read-only, row-major view of a matrix over a buffer that the caller owns.
///
/// The view never copies or owns the elements; it only checks, once, that the
/// buffer has the shape it claims.
pub struct F32Tensor<'a, T> {
    rows: usize,
    cols: usize,
    data: &'a [T],
}

impl<'a, T> F32Tensor<'a, T> {
    pub closed spec fn rows(&self) -> int {
        self.rows as int
    }

    pub closed spec fn cols(&self) -> int {
        self.cols as int
    }

    /// The elements, row after row.
    pub closed spec fn elems(&self) -> Seq<T> {
        self.data@
    }

    /// The view's invariant: both dimensions accepted and the buffer of their product.
    pub open spec fn wf(&self) -> bool {
        &&& block_dim(self.rows())
        &&& block_dim(self.cols())
        &&& self.elems().len() == self.rows() * self.cols()
    }

    /// Wraps `data` as a `shape[0]` by `shape[1]` matrix.
    ///
    /// Fails with `Rank` unless the shape has two dimensions, then with
    /// `NotBlockMultiple` unless both are positive multiples of `BLOCK_SIZE`,
    /// then with `DataLength` unless `data` holds their product of elements.
    pub fn new(data: &'a [T], shape: Vec<usize>) -> (r: Result<F32Tensor<'a, T>, ShapeError>)
        ensures
            r is Ok <==> shape_ok(shape@, data@.len() as int),
            r is Ok ==> ({
                let t = r->Ok_0;
                &&& t.wf()
                &&& t.rows() == shape@[0]
                &&& t.cols() == shape@[1]
                &&& t.elems() == data@
            }),
            r == Err::<F32Tensor<'a, T>, ShapeError>(ShapeError::Rank) <==> shape@.len() != 2,
            r == Err::<F32Tensor<'a, T>, ShapeError>(ShapeError::NotBlockMultiple) <==> (
                shape@.len() == 2 && !(block_dim(shape@[0] as int) && block_dim(shape@[1] as int))),
            r == Err::<F32Tensor<'a, T>, ShapeError>(ShapeError::DataLength) <==> (
                shape@.len() == 2 && block_dim(shape@[0] as int) && block_dim(shape@[1] as int)
                    && data@.len() != shape@[0] * shape@[1]),
    {
        if shape.len() != 2 {
            return Err(ShapeError::Rank);
        }
        let rows = shape[0];
        let cols = shape[1];
        if rows == 0 || rows % BLOCK_SIZE != 0 || cols == 0 || cols % BLOCK_SIZE != 0 {
            return Err(ShapeError::NotBlockMultiple);
        }
        let data_len = data.len();
        let fits = match rows.checked_mul(cols) {
            Some(len) => len == data_len,
            None => false,
        };
        if fits {
            Ok(F32Tensor { rows, cols, data })
        } else {
            Err(ShapeError::DataLength)
        }
    }

    /// Number of rows.
    pub fn num_rows(&self) -> (r: usize)
        ensures
            r == self.rows(),
    {
        self.rows
    }

    /// Number of columns.
    pub fn num_cols(&self) -> (r: usize)
        ensures
            r == self.cols(),
    {
        self.cols
    }

    /// The underlying elements, row after row.
    pub fn data(&self) -> (r: &'a [T])
        ensures
            r@ == self.elems(),
    {
        self.data
    }
}

} // verus!
