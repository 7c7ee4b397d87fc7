//! The parsed dataset: a header row plus content rows.

use vstd::prelude::*;

verus! {

/// The in-memory result of parsing a delimited file.
///
/// `header` holds the field names of the first parsed record; `content` holds
/// every later record, in file order.  A record may have a different field
/// count than the header: ragged input is tolerated, and a record that failed
/// to parse is kept as an empty row so that row positions are preserved.
/// An empty table (`header` and `content` both empty) stands for "no data
/// loaded"; navigation treats it uniformly instead of null-checking.
#[derive(Debug, Clone, PartialEq)]
pub struct CSVData {
    pub header: Vec<String>,
    pub content: Vec<Vec<String>>,
}

/// Copies a record's fields.
pub(crate) fn clone_fields(fields: &Vec<String>) -> (copy: Vec<String>)
    ensures
        copy.deep_view() == fields.deep_view(),
{
    let mut copy: Vec<String> = Vec::new();
    let mut i: usize = 0;
    while i < fields.len()
        invariant
            i <= fields.len(),
            copy@.len() == i,
            forall|k: int| 0 <= k < i ==> copy@[k]@ == fields@[k]@,
        decreases fields.len() - i,
    {
        copy.push(fields[i].clone());
        i = i + 1;
    }
    proof {
        assert(copy.deep_view() =~= fields.deep_view());
    }
    copy
}

impl CSVData {
    /// The header as a mathematical sequence of field names.
    pub open spec fn header_view(&self) -> Seq<Seq<char>> {
        self.header.deep_view()
    }

    /// The content rows as a mathematical sequence of rows of field values.
    pub open spec fn rows_view(&self) -> Seq<Seq<Seq<char>>> {
        self.content.deep_view()
    }

    /// Builds the empty table.
    pub fn new() -> (data: CSVData)
        ensures
            data.header@.len() == 0,
            data.content@.len() == 0,
    {
        CSVData { header: Vec::new(), content: Vec::new() }
    }

    /// Copies the table, field by field.
    pub fn clone_data(&self) -> (copy: CSVData)
        ensures
            copy.header_view() == self.header_view(),
            copy.rows_view() == self.rows_view(),
    {
        let header = clone_fields(&self.header);
        let mut content: Vec<Vec<String>> = Vec::new();
        let mut i: usize = 0;
        while i < self.content.len()
            invariant
                i <= self.content@.len(),
                content@.len() == i,
                forall|k: int|
                    0 <= k < i ==> (#[trigger] content@[k]).deep_view()
                        == self.content@[k].deep_view(),
            decreases self.content.len() - i,
        {
            let row = clone_fields(&self.content[i]);
            proof {
                assert(self.content.deep_view()[i as int] == self.content@[i as int].deep_view());
            }
            let ghost prev = content@;
            content.push(row);
            proof {
                assert(forall|k: int| 0 <= k < prev.len() ==> #[trigger] content@[k] == prev[k]);
            }
            i = i + 1;
        }
        let copy = CSVData { header, content };
        proof {
            assert forall|k: int|
                0 <= k < copy.content@.len() implies copy.content.deep_view()[k]
                == self.content.deep_view()[k] by {
                assert(copy.content.deep_view()[k] == copy.content@[k].deep_view());
                assert(self.content.deep_view()[k] == self.content@[k].deep_view());
            };
            assert(copy.rows_view() =~= self.rows_view());
        }
        copy
    }
}

} // verus!
