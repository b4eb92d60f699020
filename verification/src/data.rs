//! Sample table data exercising every part of the grammar: spacing within a
//! group, cross-entity ordering, and anchor and range windows.

use vstd::prelude::*;

verus! {

/// A sample table with a header row and five entities. Note that the
/// Antepsin row demands both `before food` and `after food` spacing, and
/// each applies to every food instance, so this table as a whole admits no
/// schedule: solving it reports infeasibility. The single-entity sample in
/// `data_simple` is the solvable demonstration.
pub fn create_sample_table() -> (r: Vec<Vec<String>>)
    ensures
        r@.len() == 6,
        r@[0]@.len() == 9,
        r@[0]@[0]@ == "Entity"@,
        r@[0]@[1]@ == "Category"@,
        r@[0]@[2]@ == "Unit"@,
        r@[0]@[3]@ == "Amount"@,
        r@[0]@[4]@ == "Split"@,
        r@[0]@[5]@ == "Frequency"@,
        r@[0]@[6]@ == "Constraints"@,
        r@[0]@[7]@ == "Windows"@,
        r@[0]@[8]@ == "Note"@,
        r@[1]@.len() == 9,
        r@[1]@[0]@ == "Antepsin"@,
        r@[1]@[1]@ == "med"@,
        r@[1]@[2]@ == "tablet"@,
        r@[1]@[3]@ == "null"@,
        r@[1]@[4]@ == "3"@,
        r@[1]@[5]@ == "3x daily"@,
        r@[1]@[6]@ == "[\"≥6h apart\", \"≥1h before food\", \"≥2h after food\"]"@,
        r@[1]@[7]@ == "[]"@,
        r@[1]@[8]@ == "in 1tsp water"@,
        r@[2]@.len() == 9,
        r@[2]@[0]@ == "Gabapentin"@,
        r@[2]@[1]@ == "med"@,
        r@[2]@[2]@ == "ml"@,
        r@[2]@[3]@ == "1.8"@,
        r@[2]@[4]@ == "null"@,
        r@[2]@[5]@ == "2x daily"@,
        r@[2]@[6]@ == "[\"≥8h apart\"]"@,
        r@[2]@[7]@ == "[]"@,
        r@[2]@[8]@ == "null"@,
        r@[3]@.len() == 9,
        r@[3]@[0]@ == "Pardale"@,
        r@[3]@[1]@ == "med"@,
        r@[3]@[2]@ == "tablet"@,
        r@[3]@[3]@ == "null"@,
        r@[3]@[4]@ == "2"@,
        r@[3]@[5]@ == "2x daily"@,
        r@[3]@[6]@ == "[\"≥8h apart\"]"@,
        r@[3]@[7]@ == "[]"@,
        r@[3]@[8]@ == "null"@,
        r@[4]@.len() == 9,
        r@[4]@[0]@ == "Pro-Kolin"@,
        r@[4]@[1]@ == "med"@,
        r@[4]@[2]@ == "ml"@,
        r@[4]@[3]@ == "3.0"@,
        r@[4]@[4]@ == "null"@,
        r@[4]@[5]@ == "2x daily"@,
        r@[4]@[6]@ == "[]"@,
        r@[4]@[7]@ == "[]"@,
        r@[4]@[8]@ == "with food"@,
        r@[5]@.len() == 9,
        r@[5]@[0]@ == "Chicken and rice"@,
        r@[5]@[1]@ == "food"@,
        r@[5]@[2]@ == "meal"@,
        r@[5]@[3]@ == "null"@,
        r@[5]@[4]@ == "null"@,
        r@[5]@[5]@ == "2x daily"@,
        r@[5]@[6]@ == "[]"@,
        r@[5]@[7]@ == "[\"08:00\", \"18:00-20:00\"]"@,
        r@[5]@[8]@ == "some note"@,
{
    let header = vec![
        String::from_str("Entity"),
        String::from_str("Category"),
        String::from_str("Unit"),
        String::from_str("Amount"),
        String::from_str("Split"),
        String::from_str("Frequency"),
        String::from_str("Constraints"),
        String::from_str("Windows"),
        String::from_str("Note"),
    ];
    let antepsin = vec![
        String::from_str("Antepsin"),
        String::from_str("med"),
        String::from_str("tablet"),
        String::from_str("null"),
        String::from_str("3"),
        String::from_str("3x daily"),
        String::from_str("[\"≥6h apart\", \"≥1h before food\", \"≥2h after food\"]"),
        String::from_str("[]"),
        String::from_str("in 1tsp water"),
    ];
    let gabapentin = vec![
        String::from_str("Gabapentin"),
        String::from_str("med"),
        String::from_str("ml"),
        String::from_str("1.8"),
        String::from_str("null"),
        String::from_str("2x daily"),
        String::from_str("[\"≥8h apart\"]"),
        String::from_str("[]"),
        String::from_str("null"),
    ];
    let pardale = vec![
        String::from_str("Pardale"),
        String::from_str("med"),
        String::from_str("tablet"),
        String::from_str("null"),
        String::from_str("2"),
        String::from_str("2x daily"),
        String::from_str("[\"≥8h apart\"]"),
        String::from_str("[]"),
        String::from_str("null"),
    ];
    let pro_kolin = vec![
        String::from_str("Pro-Kolin"),
        String::from_str("med"),
        String::from_str("ml"),
        String::from_str("3.0"),
        String::from_str("null"),
        String::from_str("2x daily"),
        String::from_str("[]"),
        String::from_str("[]"),
        String::from_str("with food"),
    ];
    let chicken = vec![
        String::from_str("Chicken and rice"),
        String::from_str("food"),
        String::from_str("meal"),
        String::from_str("null"),
        String::from_str("null"),
        String::from_str("2x daily"),
        String::from_str("[]"),
        String::from_str("[\"08:00\", \"18:00-20:00\"]"),
        String::from_str("some note"),
    ];
    vec![header, antepsin, gabapentin, pardale, pro_kolin, chicken]
}

} // verus!
