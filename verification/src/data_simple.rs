//! A minimal sample table: one entity with a single range window.

use vstd::prelude::*;

verus! {

/// A sample table with a header row and one entity.
pub fn create_sample_table() -> (r: Vec<Vec<String>>)
    ensures
        r@.len() == 2,
        r@[0]@.len() == 9,
        r@[0]@[0]@ == "Entity"@,
        r@[0]@[1]@ == "Category"@,
        r@[0]@[2]@ == "Unit"@,
        r@[0]@[3]@ == "Amount"@,
        r@[0]@[4]@ == "Split"@,
        r@[0]@[5]@ == "Frequency"@,
        r@[0]@[6]@ == "Constraints"@,
        r@[0]@[7]@ == "Windows"@,
        r@[0]@[8]@ == "Note"@,
        r@[1]@.len() == 9,
        r@[1]@[0]@ == "Chicken and rice"@,
        r@[1]@[1]@ == "food"@,
        r@[1]@[2]@ == "meal"@,
        r@[1]@[3]@ == "null"@,
        r@[1]@[4]@ == "null"@,
        r@[1]@[5]@ == "1x daily"@,
        r@[1]@[6]@ == "[]"@,
        r@[1]@[7]@ == "[\"12:00-13:00\"]"@,
        r@[1]@[8]@ == "some note"@,
{
    let header = vec![
        String::from_str("Entity"),
        String::from_str("Category"),
        String::from_str("Unit"),
        String::from_str("Amount"),
        String::from_str("Split"),
        String::from_str("Frequency"),
        String::from_str("Constraints"),
        String::from_str("Windows"),
        String::from_str("Note"),
    ];
    let chicken = vec![
        String::from_str("Chicken and rice"),
        String::from_str("food"),
        String::from_str("meal"),
        String::from_str("null"),
        String::from_str("null"),
        String::from_str("1x daily"),
        String::from_str("[]"),
        String::from_str("[\"12:00-13:00\"]"),
        String::from_str("some note"),
    ];
    vec![header, chicken]
}

} // verus!
