//! The directory scan: which entries of a walk are admitted, and the
//! result record built for each admitted file.
//!
//! Walking the filesystem is I/O and happens outside the library; the
//! caller hands in one `FileEntry` per entry reached, in traversal order,
//! and the scan here applies every filtering rule and builds the results.
//! The output is a function of the entry list and the configuration alone,
//! so a second scan over an unchanged tree returns the same results.

use vstd::prelude::*;
use crate::text::{lower_seq, to_chars, lower_chars, chars_eq_str};
use crate::category::{
    Category, spec_ext_of, spec_file_category, spec_category_name, ext_of, category_of,
    category_name, file_category, spec_category_of,
};
use crate::extract::{VehicleHint, HintModel, spec_extract, extract_vehicle_hints};

verus! {

/// What a scan should cover: the root paths, and the filters applied to
/// every entry reached from them.
pub struct ScanConfig {
    pub paths: Vec<String>,
    pub include_hidden: bool,
    pub max_depth: Option<usize>,
    pub include_images: bool,
    pub include_documents: bool,
    pub include_spreadsheets: bool,
}

/// One entry reached while walking a root: its full path, its own file
/// name, the names of the path components below the root (the entry's own
/// name last; empty for the root itself), whether it is a regular file,
/// and its metadata.
pub struct FileEntry {
    pub path: String,
    pub name: String,
    pub components: Vec<String>,
    pub is_file: bool,
    pub size: u64,
    pub modified: String,
}

/// One admitted file, with the hint read from its path.
pub struct ScanResult {
    pub path: String,
    pub filename: String,
    pub file_type: String,
    pub category: String,
    pub size: u64,
    pub modified: String,
    pub potential_vehicle: Option<VehicleHint>,
}

/// Running progress of a scan, as a caller may report it.
pub struct ScanProgress {
    pub scanned: usize,
    pub found: usize,
    pub current_path: String,
    pub complete: bool,
}

/// The mathematical shape of a walk entry.
#[verifier::ext_equal]
pub struct EntryModel {
    pub path: Seq<char>,
    pub name: Seq<char>,
    pub components: Seq<Seq<char>>,
    pub is_file: bool,
    pub size: u64,
    pub modified: Seq<char>,
}

impl View for FileEntry {
    type V = EntryModel;

    open spec fn view(&self) -> EntryModel {
        EntryModel {
            path: self.path@,
            name: self.name@,
            components: Seq::new(self.components@.len(), |i: int| self.components@[i]@),
            is_file: self.is_file,
            size: self.size,
            modified: self.modified@,
        }
    }
}

/// The mathematical shape of a scan result.
#[verifier::ext_equal]
pub struct ResultModel {
    pub path: Seq<char>,
    pub filename: Seq<char>,
    pub file_type: Seq<char>,
    pub category: Seq<char>,
    pub size: u64,
    pub modified: Seq<char>,
    pub potential_vehicle: Option<HintModel>,
}

impl View for ScanResult {
    type V = ResultModel;

    open spec fn view(&self) -> ResultModel {
        ResultModel {
            path: self.path@,
            filename: self.filename@,
            file_type: self.file_type@,
            category: self.category@,
            size: self.size,
            modified: self.modified@,
            potential_vehicle: match self.potential_vehicle {
                Some(h) => Some(h@),
                None => None,
            },
        }
    }
}

/// The recursion bound: the configured maximum depth, or ten by default.
pub open spec fn spec_max_depth(c: ScanConfig) -> int {
    match c.max_depth {
        Some(d) => d as int,
        None => 10,
    }
}

/// A name that marks an entry hidden.
pub open spec fn starts_dot(s: Seq<char>) -> bool {
    s.len() > 0 && s[0] == '.'
}

/// Every path component of the entry below its root, its own name
/// included, is free of a leading dot.
pub open spec fn nothing_hidden(e: EntryModel) -> bool {
    &&& !starts_dot(e.name)
    &&& forall|k: int| 0 <= k < e.components.len() ==> !starts_dot(#[trigger] e.components[k])
}

/// The category flag of the configuration that admits a file of the given
/// category; files of unknown category are never admitted.
pub open spec fn category_admitted(c: ScanConfig, cat: Category) -> bool {
    match cat {
        Category::Image => c.include_images,
        Category::Document => c.include_documents,
        Category::Spreadsheet => c.include_spreadsheets,
        Category::Unknown => false,
    }
}

/// Every filtering rule at once: an entry is admitted when it is a regular
/// file, lies within the depth bound, is not hidden (nor under a hidden
/// directory) unless hidden entries are included, and its extension falls
/// in a category whose flag is set.
pub open spec fn spec_admits(c: ScanConfig, e: EntryModel) -> bool {
    &&& e.is_file
    &&& e.components.len() <= spec_max_depth(c)
    &&& (c.include_hidden || nothing_hidden(e))
    &&& category_admitted(c, spec_file_category(e.name))
}

/// The record built for an admitted file.
pub open spec fn spec_result_of(e: EntryModel) -> ResultModel {
    ResultModel {
        path: e.path,
        filename: e.name,
        file_type: lower_seq(spec_ext_of(e.name)),
        category: spec_category_name(spec_file_category(e.name)),
        size: e.size,
        modified: e.modified,
        potential_vehicle: spec_extract(e.path),
    }
}

/// The whole scan: the admitted entries, in order, each turned into its
/// result record.
pub open spec fn spec_scan(c: ScanConfig, entries: Seq<EntryModel>) -> Seq<ResultModel>
    decreases entries.len(),
{
    if entries.len() == 0 {
        Seq::empty()
    } else {
        let init = spec_scan(c, entries.drop_last());
        if spec_admits(c, entries.last()) {
            init.push(spec_result_of(entries.last()))
        } else {
            init
        }
    }
}

/// The views of a list of entries.
pub open spec fn entry_views(entries: Seq<FileEntry>) -> Seq<EntryModel> {
    Seq::new(entries.len(), |i: int| entries[i]@)
}

/// The views of a list of results.
pub open spec fn result_views(results: Seq<ScanResult>) -> Seq<ResultModel> {
    Seq::new(results.len(), |i: int| results[i]@)
}

/// Whether one entry passes every filter of the configuration.
pub fn admits(config: &ScanConfig, e: &FileEntry) -> (b: bool)
    ensures
        b == spec_admits(*config, e@),
{
    if !e.is_file {
        return false;
    }
    let maxd: usize = match config.max_depth {
        Some(d) => d,
        None => 10,
    };
    if e.components.len() > maxd {
        return false;
    }
    if !config.include_hidden {
        let name_len = e.name.as_str().unicode_len();
        if name_len > 0 && e.name.as_str().get_char(0) == '.' {
            assert(starts_dot(e@.name));
            return false;
        }
        let mut k: usize = 0;
        while k < e.components.len()
            invariant
                !config.include_hidden,
                k <= e.components@.len(),
                forall|l: int| 0 <= l < k ==> !starts_dot(#[trigger] e@.components[l]),
            decreases e.components@.len() - k,
        {
            let comp = &e.components[k];
            let clen = comp.as_str().unicode_len();
            if clen > 0 && comp.as_str().get_char(0) == '.' {
                assert(starts_dot(e@.components[k as int]));
                assert(!nothing_hidden(e@));
                return false;
            }
            assert(!starts_dot(e@.components[k as int]));
            k = k + 1;
        }
        assert(nothing_hidden(e@));
    }
    let name_chars = to_chars(e.name.as_str());
    match file_category(&name_chars) {
        Category::Image => config.include_images,
        Category::Document => config.include_documents,
        Category::Spreadsheet => config.include_spreadsheets,
        Category::Unknown => false,
    }
}

/// The admitted extensions, each returned as an owned string; anything
/// else is of unknown category.
fn known_ext_string(low: &Vec<char>) -> (r: Option<String>)
    ensures
        match r {
            Some(s) => s@ == low@ && spec_category_of(low@) != Category::Unknown,
            None => spec_category_of(low@) == Category::Unknown,
        },
{
    if chars_eq_str(low, "jpg") {
        Some(String::from_str("jpg"))
    } else if chars_eq_str(low, "jpeg") {
        Some(String::from_str("jpeg"))
    } else if chars_eq_str(low, "png") {
        Some(String::from_str("png"))
    } else if chars_eq_str(low, "gif") {
        Some(String::from_str("gif"))
    } else if chars_eq_str(low, "heic") {
        Some(String::from_str("heic"))
    } else if chars_eq_str(low, "heif") {
        Some(String::from_str("heif"))
    } else if chars_eq_str(low, "webp") {
        Some(String::from_str("webp"))
    } else if chars_eq_str(low, "pdf") {
        Some(String::from_str("pdf"))
    } else if chars_eq_str(low, "doc") {
        Some(String::from_str("doc"))
    } else if chars_eq_str(low, "docx") {
        Some(String::from_str("docx"))
    } else if chars_eq_str(low, "txt") {
        Some(String::from_str("txt"))
    } else if chars_eq_str(low, "rtf") {
        Some(String::from_str("rtf"))
    } else if chars_eq_str(low, "csv") {
        Some(String::from_str("csv"))
    } else if chars_eq_str(low, "xlsx") {
        Some(String::from_str("xlsx"))
    } else if chars_eq_str(low, "xls") {
        Some(String::from_str("xls"))
    } else if chars_eq_str(low, "numbers") {
        Some(String::from_str("numbers"))
    } else {
        None
    }
}

/// Scan a walked list of entries under one configuration: apply every
/// filter, and build the result record, hint included, for each admitted
/// file, in the order the entries came.
pub fn scan_directories(config: &ScanConfig, entries: &Vec<FileEntry>) -> (results: Vec<
    ScanResult,
>)
    ensures
        result_views(results@) == spec_scan(*config, entry_views(entries@)),
{
    let mut results: Vec<ScanResult> = Vec::new();
    let mut i: usize = 0;
    while i < entries.len()
        invariant
            i <= entries@.len(),
            result_views(results@) == spec_scan(*config, entry_views(entries@.take(i as int))),
        decreases entries@.len() - i,
    {
        let e = &entries[i];
        if admits(config, e) {
            let name_chars = to_chars(e.name.as_str());
            let ext = ext_of(&name_chars);
            let low = lower_chars(&ext);
            let cat = category_of(&low);
            let file_type = match known_ext_string(&low) {
                Some(s) => s,
                None => String::new(),
            };
            let r = ScanResult {
                path: e.path.clone(),
                filename: e.name.clone(),
                file_type,
                category: category_name(cat),
                size: e.size,
                modified: e.modified.clone(),
                potential_vehicle: extract_vehicle_hints(e.path.as_str()),
            };
            assert(r@ =~= spec_result_of(e@));
            results.push(r);
        }
        proof {
            assert(entry_views(entries@.take(i + 1)).drop_last() =~= entry_views(
                entries@.take(i as int),
            ));
            assert(entry_views(entries@.take(i + 1)).last() == entries@[i as int]@);
            assert(result_views(results@) =~= spec_scan(
                *config,
                entry_views(entries@.take(i + 1)),
            ));
        }
        i = i + 1;
    }
    assert(entries@.take(entries@.len() as int) =~= entries@);
    results
}

/// With hidden entries excluded, no hidden file and nothing under a hidden
/// directory is admitted: a leading dot anywhere below the root bars the
/// entry.
pub proof fn lemma_hidden_excluded(c: ScanConfig, e: EntryModel)
    requires
        !c.include_hidden,
        starts_dot(e.name) || exists|k: int|
            0 <= k < e.components.len() && starts_dot(#[trigger] e.components[k]),
    ensures
        !spec_admits(c, e),
{
}

/// The record of some admitted entry of the list.
pub open spec fn from_admitted(c: ScanConfig, entries: Seq<EntryModel>, r: ResultModel) -> bool {
    exists|k: int|
        0 <= k < entries.len() && spec_admits(c, #[trigger] entries[k]) && r == spec_result_of(
            entries[k],
        )
}

/// Everything the scan returns comes from an admitted entry: the result
/// list holds exactly the records of the entries that passed the filters.
pub proof fn lemma_scan_only_admitted(c: ScanConfig, entries: Seq<EntryModel>)
    ensures
        forall|j: int|
            0 <= j < spec_scan(c, entries).len() ==> from_admitted(
                c,
                entries,
                #[trigger] spec_scan(c, entries)[j],
            ),
    decreases entries.len(),
{
    if entries.len() > 0 {
        lemma_scan_only_admitted(c, entries.drop_last());
        let prev = spec_scan(c, entries.drop_last());
        assert forall|j: int| 0 <= j < spec_scan(c, entries).len() implies from_admitted(
            c,
            entries,
            #[trigger] spec_scan(c, entries)[j],
        ) by {
            if j < prev.len() {
                assert(from_admitted(c, entries.drop_last(), prev[j]));
                let k = choose|k: int|
                    0 <= k < entries.drop_last().len() && spec_admits(
                        c,
                        #[trigger] entries.drop_last()[k],
                    ) && prev[j] == spec_result_of(entries.drop_last()[k]);
                assert(entries.drop_last()[k] == entries[k]);
                assert(spec_admits(c, entries[k]) && spec_scan(c, entries)[j] == spec_result_of(
                    entries[k],
                ));
            } else {
                let k = entries.len() - 1;
                assert(spec_admits(c, entries[k]) && spec_scan(c, entries)[j] == spec_result_of(
                    entries[k],
                ));
            }
        }
    } else {
        assert(spec_scan(c, entries).len() == 0);
    }
}

} // verus!
