//! Pairing a spreadsheet's header row with one record.

use vstd::prelude::*;

verus! {

/// One row as key/value pairs: the i-th header with the i-th field, for
/// every position both rows have; a short record simply yields fewer
/// pairs.
pub fn pair_columns(headers: &Vec<String>, fields: &Vec<String>) -> (pairs: Vec<(String, String)>)
    ensures
        pairs@.len() == if headers@.len() <= fields@.len() {
            headers@.len()
        } else {
            fields@.len()
        },
        forall|i: int|
            0 <= i < pairs@.len() ==> (#[trigger] pairs@[i]).0@ == headers@[i]@ && pairs@[i].1@
                == fields@[i]@,
{
    let n = if headers.len() <= fields.len() {
        headers.len()
    } else {
        fields.len()
    };
    let mut pairs: Vec<(String, String)> = Vec::new();
    let mut i: usize = 0;
    while i < n
        invariant
            i <= n,
            n <= headers@.len(),
            n <= fields@.len(),
            pairs@.len() == i,
            forall|k: int|
                0 <= k < i ==> (#[trigger] pairs@[k]).0@ == headers@[k]@ && pairs@[k].1@
                    == fields@[k]@,
        decreases n - i,
    {
        pairs.push((headers[i].clone(), fields[i].clone()));
        i = i + 1;
    }
    pairs
}

} // verus!
