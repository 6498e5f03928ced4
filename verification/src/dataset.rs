use vstd::prelude::*;

verus! {

/// The mathematical model of a tabular dataset: a sequence of column
/// names and a sequence of rows, each row a sequence of cell values.
/// Cell values are uninterpreted text, held as byte strings.
pub ghost struct TableModel {
    pub names: Seq<Seq<u8>>,
    pub rows: Seq<Seq<Seq<u8>>>,
}

/// The sequence of views of a sequence of byte vectors.
pub open spec fn views2(s: Seq<Vec<u8>>) -> Seq<Seq<u8>> {
    Seq::new(s.len(), |i: int| s[i]@)
}

/// The sequence of views of a sequence of rows of byte vectors.
pub open spec fn views3(s: Seq<Vec<Vec<u8>>>) -> Seq<Seq<Seq<u8>>> {
    Seq::new(s.len(), |i: int| views2(s[i]@))
}

/// Well-formedness of a table: at least one column, column names unique,
/// and every row has exactly one cell per column.
pub open spec fn model_wf(m: TableModel) -> bool {
    &&& m.names.len() >= 1
    &&& (forall|i: int, j: int|
        0 <= i < j < m.names.len() ==> m.names[i] != m.names[j])
    &&& (forall|i: int| #![auto] 0 <= i < m.rows.len() ==> m.rows[i].len() == m.names.len())
}

/// An in-memory table of named columns with a shared row count, the
/// working representation between decoding and encoding. Cell values are
/// kept exactly as written in the source text; the codec never re-types them.
#[derive(Clone, Debug, PartialEq, Eq)]
pub struct TabularDataset {
    /// Column names, in insertion order. Preserved through decode,
    /// transform and encode.
    pub names: Vec<Vec<u8>>,
    /// Rows in order; each row holds one cell per column, in column order.
    pub rows: Vec<Vec<Vec<u8>>>,
}

impl TabularDataset {
    /// The abstraction of this dataset that all contracts speak of.
    pub open spec fn model(self) -> TableModel {
        TableModel { names: views2(self.names@), rows: views3(self.rows@) }
    }

    /// The dataset invariant: its model is well-formed.
    pub open spec fn wf(self) -> bool {
        model_wf(self.model())
    }

    /// Number of columns.
    pub fn column_count(&self) -> (n: usize)
        ensures
            n == self.model().names.len(),
    {
        self.names.len()
    }

    /// Number of rows.
    pub fn row_count(&self) -> (n: usize)
        ensures
            n == self.model().rows.len(),
    {
        self.rows.len()
    }
}

} // verus!
