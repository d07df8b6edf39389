//! The index of the bulk files that the card service offers for download.

use uuid::Uuid;
use vstd::prelude::*;
use vstd::string::StringExecFns;

verus! {

/// The index of the bulk files.
#[derive(Debug, PartialEq, Clone)]
pub struct BulkIndex {
    pub object: String,
    pub has_more: bool,
    pub data: Vec<BulkItem>,
}

/// One bulk file: what it holds and where it can be had.
#[derive(Debug, PartialEq, Clone)]
pub struct BulkItem {
    pub object: String,
    pub id: Uuid,
    pub uri: String,
    /// The kind of file, such as `oracle_cards`.
    pub data_type: String,
    pub name: String,
    pub description: String,
    /// Where the file itself is.
    pub download_uri: String,
    pub updated_at: String,
    pub size: i32,
    pub content_type: String,
    pub content_encoding: String,
}

impl BulkItem {
    /// Whether the file is the one with a card for each set of rules text.
    pub open spec fn spec_is_oracle_cards(&self) -> bool {
        self.data_type@ == "oracle_cards"@
    }

    /// Whether the file is the one with a card for each set of rules text:
    /// its kind is `oracle_cards`.
    pub fn is_oracle_cards(&self) -> (found: bool)
        ensures
            found == self.spec_is_oracle_cards(),
    {
        let wanted = String::from_str("oracle_cards");
        self.data_type == wanted
    }
}

impl BulkIndex {
    /// Whether `at` is the place of the first file of the kind `oracle_cards`.
    pub open spec fn is_first_oracle_cards(&self, at: int) -> bool {
        &&& 0 <= at < self.data.len()
        &&& self.data@[at].spec_is_oracle_cards()
        &&& forall|k: int| 0 <= k < at ==> !(#[trigger] self.data@[k]).spec_is_oracle_cards()
    }

    /// The first file of the kind `oracle_cards` that the index lists; none
    /// if it lists no such file.
    pub fn oracle_cards<'a>(&'a self) -> (item: Option<&'a BulkItem>)
        ensures
            match item {
                Some(item) => exists|at: int|
                    self.is_first_oracle_cards(at) && *item == #[trigger] self.data@[at],
                None => forall|k: int|
                    0 <= k < self.data.len() ==> !(#[trigger] self.data@[k]).spec_is_oracle_cards(),
            },
    {
        let mut i: usize = 0;
        while i < self.data.len()
            invariant
                i <= self.data.len(),
                forall|k: int| 0 <= k < i ==> !(#[trigger] self.data@[k]).spec_is_oracle_cards(),
            decreases self.data.len() - i,
        {
            if self.data[i].is_oracle_cards() {
                return Some(&self.data[i]);
            }
            i += 1;
        }
        None
    }
}

} // verus!
