//! File-extension handling: the extension of a file name, the fixed
//! extension-to-category table, and case-insensitivity of the mapping.

use vstd::prelude::*;
use vstd::assert_seqs_equal;
use crate::text::{lower_seq, lower_char, chars_eq_str, sub_chars, lower_chars};

verus! {

/// The category a file falls in, derived purely from its extension.
#[derive(Clone, Copy, PartialEq, Eq, Structural, Debug)]
pub enum Category {
    Image,
    Document,
    Spreadsheet,
    Unknown,
}

/// The largest index `i` with `1 <= i < j` and `name[i] == '.'`, or `-1`
/// if there is none. A dot at index 0 does not begin an extension.
pub open spec fn last_dot_before(name: Seq<char>, j: int) -> int
    decreases j,
{
    if j <= 1 {
        -1
    } else if name[j - 1] == '.' {
        j - 1
    } else {
        last_dot_before(name, j - 1)
    }
}

/// The extension of a file name: everything after the last dot, provided
/// that dot is not the leading character; empty when there is no such dot.
pub open spec fn spec_ext_of(name: Seq<char>) -> Seq<char> {
    let d = last_dot_before(name, name.len() as int);
    if d >= 1 {
        name.subrange(d + 1, name.len() as int)
    } else {
        Seq::empty()
    }
}

/// Extension of a file name, as characters, not yet lower-cased.
pub fn ext_of(name: &Vec<char>) -> (r: Vec<char>)
    ensures
        r@ == spec_ext_of(name@),
{
    let n = name.len();
    let mut j: usize = n;
    while j > 1
        invariant
            j <= n,
            n == name@.len(),
            last_dot_before(name@, n as int) == last_dot_before(name@, j as int),
        decreases j,
    {
        if name[j - 1] == '.' {
            return sub_chars(name, j, n);
        }
        j = j - 1;
    }
    Vec::new()
}

/// Extensions admitted as images.
pub open spec fn is_image_ext(e: Seq<char>) -> bool {
    ||| e == "jpg"@
    ||| e == "jpeg"@
    ||| e == "png"@
    ||| e == "gif"@
    ||| e == "heic"@
    ||| e == "heif"@
    ||| e == "webp"@
}

/// Extensions admitted as documents.
pub open spec fn is_document_ext(e: Seq<char>) -> bool {
    ||| e == "pdf"@
    ||| e == "doc"@
    ||| e == "docx"@
    ||| e == "txt"@
    ||| e == "rtf"@
}

/// Extensions admitted as spreadsheets.
pub open spec fn is_spreadsheet_ext(e: Seq<char>) -> bool {
    ||| e == "csv"@
    ||| e == "xlsx"@
    ||| e == "xls"@
    ||| e == "numbers"@
}

/// The fixed table mapping a lower-cased extension to its category.
pub open spec fn spec_category_of(e: Seq<char>) -> Category {
    if is_image_ext(e) {
        Category::Image
    } else if is_document_ext(e) {
        Category::Document
    } else if is_spreadsheet_ext(e) {
        Category::Spreadsheet
    } else {
        Category::Unknown
    }
}

/// The category of a file name: its extension, lower-cased, looked up in
/// the fixed table.
pub open spec fn spec_file_category(name: Seq<char>) -> Category {
    spec_category_of(lower_seq(spec_ext_of(name)))
}

/// Table lookup on an already lower-cased extension.
pub fn category_of(e: &Vec<char>) -> (c: Category)
    ensures
        c == spec_category_of(e@),
{
    if chars_eq_str(e, "jpg") || chars_eq_str(e, "jpeg") || chars_eq_str(e, "png")
        || chars_eq_str(e, "gif") || chars_eq_str(e, "heic") || chars_eq_str(e, "heif")
        || chars_eq_str(e, "webp") {
        Category::Image
    } else if chars_eq_str(e, "pdf") || chars_eq_str(e, "doc") || chars_eq_str(e, "docx")
        || chars_eq_str(e, "txt") || chars_eq_str(e, "rtf") {
        Category::Document
    } else if chars_eq_str(e, "csv") || chars_eq_str(e, "xlsx") || chars_eq_str(e, "xls")
        || chars_eq_str(e, "numbers") {
        Category::Spreadsheet
    } else {
        Category::Unknown
    }
}

/// The category of a file name, computed from its lower-cased extension.
pub fn file_category(name: &Vec<char>) -> (c: Category)
    ensures
        c == spec_file_category(name@),
{
    let e = ext_of(name);
    let low = lower_chars(&e);
    category_of(&low)
}

/// The display form of a category, as the scanner reports it.
pub open spec fn spec_category_name(c: Category) -> Seq<char> {
    match c {
        Category::Image => "image"@,
        Category::Document => "document"@,
        Category::Spreadsheet => "spreadsheet"@,
        Category::Unknown => "unknown"@,
    }
}

/// Display form of a category.
pub fn category_name(c: Category) -> (s: String)
    ensures
        s@ == spec_category_name(c),
{
    match c {
        Category::Image => String::from_str("image"),
        Category::Document => String::from_str("document"),
        Category::Spreadsheet => String::from_str("spreadsheet"),
        Category::Unknown => String::from_str("unknown"),
    }
}

/// The extension dot, when present, lies strictly inside the name.
pub proof fn lemma_last_dot_range(name: Seq<char>, j: int)
    requires
        0 <= j,
    ensures
        -1 <= last_dot_before(name, j) < j,
    decreases j,
{
    if j > 1 && name[j - 1] != '.' {
        lemma_last_dot_range(name, j - 1);
    }
}

/// Lower-casing never introduces or removes a dot, so the position of the
/// extension dot is the same in a name and in its lower-cased form.
proof fn lemma_last_dot_lower(name: Seq<char>, j: int)
    requires
        j <= name.len(),
    ensures
        last_dot_before(lower_seq(name), j) == last_dot_before(name, j),
    decreases j,
{
    if j > 1 {
        assert(lower_seq(name)[j - 1] == lower_char(name[j - 1]));
        assert((lower_char(name[j - 1]) == '.') == (name[j - 1] == '.'));
        lemma_last_dot_lower(name, j - 1);
    }
}

/// Taking the extension commutes with lower-casing the name.
pub proof fn lemma_ext_lower_commute(name: Seq<char>)
    ensures
        spec_ext_of(lower_seq(name)) == lower_seq(spec_ext_of(name)),
{
    lemma_last_dot_lower(name, name.len() as int);
    lemma_last_dot_range(name, name.len() as int);
    let n = name.len() as int;
    let d = last_dot_before(name, n);
    assert(lower_seq(name).len() == n);
    if d >= 1 {
        assert_seqs_equal!(
            lower_seq(name).subrange(d + 1, n) == lower_seq(name.subrange(d + 1, n)),
            k => {
                assert(lower_seq(name).subrange(d + 1, n)[k] == lower_char(name[d + 1 + k]));
                assert(name.subrange(d + 1, n)[k] == name[d + 1 + k]);
                assert(lower_seq(name.subrange(d + 1, n))[k] == lower_char(name[d + 1 + k]));
            }
        );
    } else {
        assert(spec_ext_of(lower_seq(name)) =~= lower_seq(spec_ext_of(name)));
    }
}

/// Extension matching is case-insensitive: two file names that agree up to
/// ASCII case fall in the same category.
pub proof fn lemma_category_case_insensitive(a: Seq<char>, b: Seq<char>)
    requires
        lower_seq(a) == lower_seq(b),
    ensures
        spec_file_category(a) == spec_file_category(b),
{
    lemma_ext_lower_commute(a);
    lemma_ext_lower_commute(b);
    assert(lower_seq(spec_ext_of(a)) == spec_ext_of(lower_seq(a)));
    assert(lower_seq(spec_ext_of(b)) == spec_ext_of(lower_seq(b)));
}

} // verus!
