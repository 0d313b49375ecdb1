//! The simpler document walk: admitted image and PDF files, newest first.
//!
//! Entries come from the caller's walk, as in the main scan. A fixed
//! extension list admits a file; the admitted files are reported newest
//! first, ordered by their modification field (decimal text compared by
//! code point, later entries after earlier ones on equal stamps).

use vstd::prelude::*;
use crate::text::{
    lower_seq, chars_le, to_chars, lower_chars, chars_eq_str, le_str, lemma_chars_le_total,
    lemma_chars_le_trans,
};
use crate::category::{spec_ext_of, ext_of};
use crate::scan::{FileEntry, EntryModel, entry_views};

verus! {

/// One admitted document of the walk.
pub struct ScannedDocument {
    pub path: String,
    pub filename: String,
    pub file_type: String,
    pub size_bytes: u64,
    pub modified: String,
}

/// The mathematical shape of a scanned document.
#[verifier::ext_equal]
pub struct DocModel {
    pub path: Seq<char>,
    pub filename: Seq<char>,
    pub file_type: Seq<char>,
    pub size_bytes: u64,
    pub modified: Seq<char>,
}

impl View for ScannedDocument {
    type V = DocModel;

    open spec fn view(&self) -> DocModel {
        DocModel {
            path: self.path@,
            filename: self.filename@,
            file_type: self.file_type@,
            size_bytes: self.size_bytes,
            modified: self.modified@,
        }
    }
}

impl ScannedDocument {
    /// A copy with the same fields.
    pub fn duplicate(&self) -> (d: ScannedDocument)
        ensures
            d@ == self@,
    {
        ScannedDocument {
            path: self.path.clone(),
            filename: self.filename.clone(),
            file_type: self.file_type.clone(),
            size_bytes: self.size_bytes,
            modified: self.modified.clone(),
        }
    }
}

/// The extensions this walk admits.
pub open spec fn is_doc_ext(e: Seq<char>) -> bool {
    ||| e == "jpg"@
    ||| e == "jpeg"@
    ||| e == "png"@
    ||| e == "gif"@
    ||| e == "webp"@
    ||| e == "pdf"@
    ||| e == "heic"@
}

/// A regular file whose lower-cased extension is admitted.
pub open spec fn spec_doc_admits(e: EntryModel) -> bool {
    &&& e.is_file
    &&& is_doc_ext(lower_seq(spec_ext_of(e.name)))
}

/// The record of an admitted file: a PDF keeps its own type tag, every
/// other admitted file counts as an image.
pub open spec fn spec_doc_of(e: EntryModel) -> DocModel {
    DocModel {
        path: e.path,
        filename: e.name,
        file_type: if lower_seq(spec_ext_of(e.name)) == "pdf"@ {
            "pdf"@
        } else {
            "image"@
        },
        size_bytes: e.size,
        modified: e.modified,
    }
}

/// The admitted entries, in walk order, each turned into its record.
pub open spec fn spec_collect_docs(entries: Seq<EntryModel>) -> Seq<DocModel>
    decreases entries.len(),
{
    if entries.len() == 0 {
        Seq::empty()
    } else {
        let init = spec_collect_docs(entries.drop_last());
        if spec_doc_admits(entries.last()) {
            init.push(spec_doc_of(entries.last()))
        } else {
            init
        }
    }
}

/// Insert one document into a list sorted newest first: it goes after
/// every entry at least as new, so entries with an equal stamp keep their
/// earlier place.
pub open spec fn insert_desc(s: Seq<DocModel>, d: DocModel) -> Seq<DocModel>
    decreases s.len(),
{
    if s.len() == 0 {
        seq![d]
    } else if chars_le(d.modified, s.last().modified) {
        s.push(d)
    } else {
        insert_desc(s.drop_last(), d).push(s.last())
    }
}

/// The stable newest-first ordering of a list of documents.
pub open spec fn sort_desc(s: Seq<DocModel>) -> Seq<DocModel>
    decreases s.len(),
{
    if s.len() == 0 {
        Seq::empty()
    } else {
        insert_desc(sort_desc(s.drop_last()), s.last())
    }
}

/// The views of a list of documents.
pub open spec fn doc_views(docs: Seq<ScannedDocument>) -> Seq<DocModel> {
    Seq::new(docs.len(), |i: int| docs[i]@)
}

/// Newest first: no document is newer than one before it.
pub open spec fn sorted_desc(s: Seq<DocModel>) -> bool {
    forall|p: int, q: int|
        0 <= p <= q < s.len() ==> chars_le(#[trigger] s[q].modified, #[trigger] s[p].modified)
}

/// Where the scan of the insertion loop stops, the insertion lands.
proof fn lemma_insert_desc_at(s: Seq<DocModel>, d: DocModel, j: int)
    requires
        0 <= j <= s.len(),
        forall|l: int| j <= l < s.len() ==> !chars_le(d.modified, #[trigger] s[l].modified),
        j == 0 || chars_le(d.modified, s[j - 1].modified),
    ensures
        insert_desc(s, d) == s.subrange(0, j) + seq![d] + s.subrange(j, s.len() as int),
    decreases s.len(),
{
    if s.len() == 0 {
        assert(insert_desc(s, d) =~= s.subrange(0, j) + seq![d] + s.subrange(j, s.len() as int));
    } else if j == s.len() {
        assert(chars_le(d.modified, s[j - 1].modified));
        assert(insert_desc(s, d) == s.push(d));
        assert(s.push(d) =~= s.subrange(0, j) + seq![d] + s.subrange(j, s.len() as int));
    } else {
        assert(!chars_le(d.modified, s.last().modified));
        let dl = s.drop_last();
        assert(forall|l: int| j <= l < dl.len() ==> !chars_le(d.modified, #[trigger] dl[l].modified));
        if j > 0 {
            assert(dl[j - 1] == s[j - 1]);
        }
        lemma_insert_desc_at(dl, d, j);
        assert(insert_desc(s, d) == insert_desc(dl, d).push(s.last()));
        assert((dl.subrange(0, j) + seq![d] + dl.subrange(j, dl.len() as int)).push(s.last()) =~= s
            .subrange(0, j) + seq![d] + s.subrange(j, s.len() as int));
    }
}

/// Walk results reduced to documents, newest first: every admitted entry
/// appears as its record, ordered by modification stamp descending, the
/// walk order kept among equal stamps.
pub fn scan_directory(entries: &Vec<FileEntry>) -> (docs: Vec<ScannedDocument>)
    ensures
        doc_views(docs@) == sort_desc(spec_collect_docs(entry_views(entries@))),
        sorted_desc(doc_views(docs@)),
{
    let mut collected: Vec<ScannedDocument> = Vec::new();
    let mut i: usize = 0;
    while i < entries.len()
        invariant
            i <= entries@.len(),
            doc_views(collected@) == spec_collect_docs(entry_views(entries@.take(i as int))),
        decreases entries@.len() - i,
    {
        let e = &entries[i];
        let name_chars = to_chars(e.name.as_str());
        let ext = ext_of(&name_chars);
        let low = lower_chars(&ext);
        let admitted = e.is_file && (chars_eq_str(&low, "jpg") || chars_eq_str(&low, "jpeg")
            || chars_eq_str(&low, "png") || chars_eq_str(&low, "gif") || chars_eq_str(&low, "webp")
            || chars_eq_str(&low, "pdf") || chars_eq_str(&low, "heic"));
        if admitted {
            let file_type = if chars_eq_str(&low, "pdf") {
                String::from_str("pdf")
            } else {
                String::from_str("image")
            };
            let d = ScannedDocument {
                path: e.path.clone(),
                filename: e.name.clone(),
                file_type,
                size_bytes: e.size,
                modified: e.modified.clone(),
            };
            assert(d@ =~= spec_doc_of(e@));
            collected.push(d);
        }
        proof {
            assert(entry_views(entries@.take(i + 1)).drop_last() =~= entry_views(
                entries@.take(i as int),
            ));
            assert(entry_views(entries@.take(i + 1)).last() == entries@[i as int]@);
            assert(doc_views(collected@) =~= spec_collect_docs(entry_views(entries@.take(i + 1))));
        }
        i = i + 1;
    }
    assert(entries@.take(entries@.len() as int) =~= entries@);
    let ghost all = spec_collect_docs(entry_views(entries@));

    let mut docs: Vec<ScannedDocument> = Vec::new();
    let mut k: usize = 0;
    assert(all.take(0) =~= Seq::<DocModel>::empty());
    while k < collected.len()
        invariant
            k <= collected@.len(),
            doc_views(collected@) == all,
            doc_views(docs@) == sort_desc(all.take(k as int)),
            docs@.len() == k,
            sorted_desc(doc_views(docs@)),
        decreases collected@.len() - k,
    {
        let d = &collected[k];
        let mut j: usize = docs.len();
        while j > 0 && !le_str(d.modified.as_str(), docs[j - 1].modified.as_str())
            invariant
                j <= docs@.len(),
                forall|l: int|
                    j <= l < docs@.len() ==> !chars_le(
                        d@.modified,
                        #[trigger] doc_views(docs@)[l].modified,
                    ),
            decreases j,
        {
            j = j - 1;
        }
        let ghost before = doc_views(docs@);
        let ghost jj = j as int;
        proof {
            lemma_insert_desc_at(doc_views(docs@), d@, j as int);
            assert(all.take(k + 1).drop_last() =~= all.take(k as int));
            assert(all.take(k + 1).last() == all[k as int]);
            assert(all[k as int] == d@);
        }
        docs.insert(j, d.duplicate());
        proof {
            assert(doc_views(docs@) =~= sort_desc(all.take(k + 1)));
            let after = doc_views(docs@);
            assert(after == before.subrange(0, jj) + seq![d@] + before.subrange(
                jj,
                before.len() as int,
            ));
            assert forall|p: int, q: int| 0 <= p <= q < after.len() implies chars_le(
                #[trigger] after[q].modified,
                #[trigger] after[p].modified,
            ) by {
                if p < jj {
                    assert(after[p] == before[p]);
                }
                if q < jj {
                    assert(after[q] == before[q]);
                }
                if p > jj {
                    assert(after[p] == before[p - 1]);
                }
                if q > jj {
                    assert(after[q] == before[q - 1]);
                }
                if q == jj && p < jj {
                    assert(chars_le(d@.modified, before[jj - 1].modified));
                    assert(chars_le(before[jj - 1].modified, before[p].modified));
                    lemma_chars_le_trans(d@.modified, before[jj - 1].modified, before[p].modified);
                } else if p == jj && q > jj {
                    assert(!chars_le(d@.modified, before[q - 1].modified));
                    lemma_chars_le_total(d@.modified, before[q - 1].modified);
                } else if p == jj && q == jj {
                    lemma_chars_le_total(d@.modified, d@.modified);
                } else if p < jj && q > jj {
                    assert(chars_le(before[q - 1].modified, before[p].modified));
                }
            }
        }
        k = k + 1;
    }
    assert(all.take(collected@.len() as int) =~= all);
    docs
}

} // verus!
