//! Text chunking: splitting text on prioritized separators and merging
//! the pieces back into size-bounded chunks. Sizes are measured in
//! characters.

use vstd::prelude::*;

use crate::error::Error;
use crate::schema::Document;
use crate::state::duplicate_entries;
use crate::text::chars_of;
use crate::text::string_of;

verus! {

use vstd::string::StringExecFns;
use vstd::string::StrSliceExecFns;

/// Size constraints for chunks, in characters.
#[derive(Debug, Clone, Copy)]
pub struct ChunkSize {
    /// The target size for each chunk.
    pub chunk_size: usize,
    /// The amount of overlap between consecutive chunks.
    pub chunk_overlap: usize,
}

impl ChunkSize {
    /// The overlap stays below the chunk size.
    pub open spec fn wf(&self) -> bool {
        self.chunk_overlap < self.chunk_size
    }

    /// Creates a chunk-size configuration; the overlap must stay below
    /// the chunk size.
    pub fn new(chunk_size: usize, chunk_overlap: usize) -> (r: Self)
        requires
            chunk_overlap < chunk_size,
        ensures
            r.chunk_size == chunk_size,
            r.chunk_overlap == chunk_overlap,
            r.wf(),
    {
        ChunkSize { chunk_size, chunk_overlap }
    }
}

impl Default for ChunkSize {
    /// 1000-character chunks with 200 characters of overlap.
    fn default() -> (r: Self)
        ensures
            r.chunk_size == 1000,
            r.chunk_overlap == 200,
            r.wf(),
    {
        ChunkSize { chunk_size: 1000, chunk_overlap: 200 }
    }
}

/// Whether `sep` occurs in `text` at position `i`.
pub open spec fn occurs_at(text: Seq<char>, sep: Seq<char>, i: int) -> bool {
    0 <= i && i + sep.len() <= text.len() && text.subrange(i, i + sep.len() as int) == sep
}

/// Finds the first occurrence of `sep` in `text` at or after `start`.
pub fn find_occurrence(text: &Vec<char>, start: usize, sep: &Vec<char>) -> (r: Option<usize>)
    requires
        sep@.len() >= 1,
        start <= text@.len(),
    ensures
        match r {
            Some(i) => start <= i && occurs_at(text@, sep@, i as int) && (forall|j: int|
                start <= j < i ==> !occurs_at(text@, sep@, j)),
            None => forall|j: int| start <= j < text@.len() ==> !occurs_at(text@, sep@, j),
        },
{
    if text.len() < sep.len() {
        return None;
    }
    let last_start = text.len() - sep.len();
    let mut i: usize = start;
    while i <= last_start
        invariant
            sep@.len() >= 1,
            sep@.len() <= text@.len(),
            last_start == text@.len() - sep@.len(),
            text@.len() <= usize::MAX,
            start <= i,
            forall|j: int| start <= j < i ==> !occurs_at(text@, sep@, j),
        decreases last_start + 1 - i,
    {
        proof {
            assert(i + sep@.len() <= text@.len());
        }
        let mut k: usize = 0;
        let mut all_eq = true;
        while k < sep.len()
            invariant
                i + sep@.len() <= text@.len(),
                text@.len() <= usize::MAX,
                k <= sep@.len(),
                all_eq <==> (forall|q: int| 0 <= q < k ==> text@[i + q] == sep@[q]),
            decreases sep@.len() - k,
        {
            if text[i + k] != sep[k] {
                all_eq = false;
            }
            k += 1;
        }
        if all_eq {
            proof {
                assert(text@.subrange(i as int, i + sep@.len() as int) =~= sep@);
            }
            return Some(i);
        }
        proof {
            if occurs_at(text@, sep@, i as int) {
                let q = choose|q: int|
                    0 <= q < sep@.len() && text@[i + q] != sep@[q];
                assert(text@.subrange(i as int, i + sep@.len() as int)[q] == text@[i + q]);
            }
        }
        i += 1;
    }
    proof {
        assert forall|j: int| start <= j < text@.len() implies !occurs_at(text@, sep@, j) by {
            if j > last_start {
                assert(j + sep@.len() > text@.len());
            }
        }
    }
    None
}

/// Copies `text[a..b]` out.
pub fn slice_chars(text: &Vec<char>, a: usize, b: usize) -> (r: Vec<char>)
    requires
        a <= b <= text@.len(),
    ensures
        r@ == text@.subrange(a as int, b as int),
{
    let mut out: Vec<char> = Vec::new();
    let mut i: usize = a;
    while i < b
        invariant
            a <= i <= b <= text@.len(),
            out@.len() == i - a,
            forall|j: int| 0 <= j < out@.len() ==> out@[j] == text@[a + j],
        decreases b - i,
    {
        out.push(text[i]);
        i += 1;
    }
    proof {
        assert(out@ =~= text@.subrange(a as int, b as int));
    }
    out
}

/// The concatenation of a list of strings, as characters.
pub open spec fn concat_strs(s: Seq<String>) -> Seq<char>
    decreases s.len(),
{
    if s.len() == 0 {
        Seq::empty()
    } else {
        concat_strs(s.drop_last()) + s.last()@
    }
}

/// Appending a string extends the concatenation by its characters.
pub proof fn lemma_concat_push(s: Seq<String>, x: String)
    ensures
        concat_strs(s.push(x)) == concat_strs(s) + x@,
{
    assert(s.push(x).drop_last() =~= s);
    assert(s.push(x).last() == x);
}

/// Inserting a string at the front extends the concatenation's length
/// by that string's length.
pub proof fn lemma_concat_insert_front_len(s: Seq<String>, x: String)
    ensures
        concat_strs(s.insert(0, x)).len() == x@.len() + concat_strs(s).len(),
    decreases s.len(),
{
    let t = s.insert(0, x);
    assert(t.len() == s.len() + 1);
    assert(concat_strs(t) == concat_strs(t.drop_last()) + t.last()@);
    if s.len() == 0 {
        assert(t =~= seq![x]);
        assert(t.drop_last() =~= Seq::<String>::empty());
        assert(concat_strs(Seq::<String>::empty()).len() == 0);
        assert(t.last() == x);
    } else {
        assert(t.drop_last() =~= s.drop_last().insert(0, x));
        assert(t.last() == s.last());
        assert(concat_strs(s) == concat_strs(s.drop_last()) + s.last()@);
        lemma_concat_insert_front_len(s.drop_last(), x);
    }
}

/// Some piece is too large to share a chunk with the overlap: its
/// length plus the overlap exceeds the chunk size.
pub open spec fn has_oversized(splits: Seq<String>, size: int, overlap: int) -> bool {
    exists|j: int| 0 <= j < splits.len() && (#[trigger] splits[j])@.len() + overlap > size
}

/// Joins a list of strings into one.
pub fn concat_strings(v: &Vec<String>) -> (r: String)
    ensures
        r@ == concat_strs(v@),
{
    let mut out = String::new();
    let mut i: usize = 0;
    while i < v.len()
        invariant
            i <= v@.len(),
            out@ == concat_strs(v@.take(i as int)),
        decreases v@.len() - i,
    {
        out.append(v[i].as_str());
        proof {
            assert(v@.take(i + 1).drop_last() =~= v@.take(i as int));
            assert(v@.take(i + 1).last() == v@[i as int]);
        }
        i += 1;
    }
    proof {
        assert(v@.take(v@.len() as int) =~= v@);
    }
    out
}

/// Splits `text` at every occurrence of `sep`, dropping empty pieces;
/// with `keep`, the separator is appended to every kept piece. Every
/// returned piece is nonempty.
pub fn split_by_separator(text: &Vec<char>, sep: &Vec<char>, sep_str: &str, keep: bool) -> (r: Vec<
    String,
>)
    requires
        sep@.len() >= 1,
        sep_str@ == sep@,
    ensures
        forall|i: int| 0 <= i < r@.len() ==> (#[trigger] r@[i])@.len() > 0,
{
    let mut parts: Vec<String> = Vec::new();
    let tlen = text.len();
    let mut pos: usize = 0;
    let mut go: bool = true;
    while go
        invariant
            sep@.len() >= 1,
            sep_str@ == sep@,
            tlen == text@.len(),
            pos <= text@.len(),
            forall|i: int| 0 <= i < parts@.len() ==> (#[trigger] parts@[i])@.len() > 0,
        decreases text@.len() - pos + (if go { 1int } else { 0int }),
    {
        match find_occurrence(text, pos, sep) {
            Some(i) => {
                let piece = slice_chars(text, pos, i);
                if piece.len() > 0 {
                    let mut s = string_of(&piece);
                    if keep {
                        s.append(sep_str);
                    }
                    parts.push(s);
                }
                pos = i + sep.len();
            },
            None => {
                let piece = slice_chars(text, pos, text.len());
                if piece.len() > 0 {
                    let mut s = string_of(&piece);
                    if keep {
                        s.append(sep_str);
                    }
                    parts.push(s);
                }
                go = false;
            },
        }
    }
    parts
}

/// A text splitter that cuts on character delimiters, in priority
/// order, then merges the pieces into size-bounded chunks.
#[derive(Debug)]
pub struct CharacterTextSplitter {
    /// Size configuration for chunks.
    pub chunk_size: ChunkSize,
    /// Delimiter strings, ordered by priority; an empty delimiter
    /// splits into single characters.
    pub separators: Vec<String>,
    /// Whether delimiters are kept at the end of the pieces.
    pub keep_separator: bool,
}

impl Default for CharacterTextSplitter {
    /// Default sizes and the separator priority list: paragraph break,
    /// line break, space, then single characters.
    fn default() -> (r: Self)
        ensures
            r.chunk_size.chunk_size == 1000,
            r.chunk_size.chunk_overlap == 200,
            r.separators@.len() == 4,
            r.separators@[0]@ == "\n\n"@,
            r.separators@[1]@ == "\n"@,
            r.separators@[2]@ == " "@,
            r.separators@[3]@ == ""@,
            r.keep_separator == false,
    {
        let mut separators: Vec<String> = Vec::new();
        separators.push("\n\n".to_owned());
        separators.push("\n".to_owned());
        separators.push(" ".to_owned());
        separators.push("".to_owned());
        CharacterTextSplitter {
            chunk_size: ChunkSize { chunk_size: 1000, chunk_overlap: 200 },
            separators,
            keep_separator: false,
        }
    }
}

impl CharacterTextSplitter {
    /// Creates a splitter with custom parameters.
    pub fn new(chunk_size: ChunkSize, separators: Vec<String>, keep_separator: bool) -> (r: Self)
        ensures
            r.chunk_size == chunk_size,
            r.separators == separators,
            r.keep_separator == keep_separator,
    {
        CharacterTextSplitter { chunk_size, separators, keep_separator }
    }

    /// Creates a splitter with the default separators and the given
    /// sizes; the overlap must stay below the chunk size.
    pub fn with_chunk_size(chunk_size: usize, chunk_overlap: usize) -> (r: Self)
        requires
            chunk_overlap < chunk_size,
        ensures
            r.chunk_size.chunk_size == chunk_size,
            r.chunk_size.chunk_overlap == chunk_overlap,
            r.separators@.len() == 4,
            r.separators@[0]@ == "\n\n"@,
            r.separators@[1]@ == "\n"@,
            r.separators@[2]@ == " "@,
            r.separators@[3]@ == ""@,
            r.keep_separator == false,
    {
        let base = Self::default();
        CharacterTextSplitter {
            chunk_size: ChunkSize::new(chunk_size, chunk_overlap),
            separators: base.separators,
            keep_separator: base.keep_separator,
        }
    }

    /// No occurrence of `sep` sits anywhere in `t`.
    pub open spec fn no_occurrence(t: Seq<char>, sep: Seq<char>) -> bool {
        forall|i: int| !occurs_at(t, sep, i)
    }

    /// Splits `text` on the first separator that occurs in it, in
    /// priority order; an empty separator splits into single
    /// characters, and a text containing no separator comes back
    /// whole. Every returned piece is nonempty, except that the
    /// whole-text fallback hands the text back as it is. Two cases
    /// need no outside say and are owed outright: when every separator
    /// is nonempty and none occurs in the text, the text comes back
    /// whole; and when the first separator is the empty one, the text
    /// comes back as its single characters, in order.
    pub fn split_text_with_separators(&self, text: &str) -> (r: Vec<String>)
        ensures
            (forall|i: int| 0 <= i < r@.len() ==> (#[trigger] r@[i])@.len() > 0) || (r@.len() == 1
                && r@[0]@ == text@),
            (forall|si: int|
                0 <= si < self.separators@.len() ==> ((#[trigger] self.separators@[si])@.len() >= 1
                    && Self::no_occurrence(text@, self.separators@[si]@))) ==> (r@.len() == 1
                && r@[0]@ == text@),
            (self.separators@.len() >= 1 && self.separators@[0]@.len() == 0) ==> (r@.len()
                == text@.len() && (forall|i: int|
                0 <= i < r@.len() ==> (#[trigger] r@[i])@ == seq![text@[i]])),
    {
        let ghost all_miss = forall|si: int|
            0 <= si < self.separators@.len() ==> ((#[trigger] self.separators@[si])@.len() >= 1
                && Self::no_occurrence(text@, self.separators@[si]@));
        let ghost first_empty = self.separators@.len() >= 1 && self.separators@[0]@.len() == 0;
        let tv = chars_of(text);
        let mut si: usize = 0;
        while si < self.separators.len()
            invariant
                tv@ == text@,
                all_miss == (forall|sj: int|
                    0 <= sj < self.separators@.len() ==> ((#[trigger] self.separators@[sj])@.len()
                        >= 1 && Self::no_occurrence(text@, self.separators@[sj]@))),
                first_empty == (self.separators@.len() >= 1 && self.separators@[0]@.len() == 0),
                first_empty ==> si == 0,
            decreases self.separators@.len() - si,
        {
            let sep_str = &self.separators[si];
            let sepv = chars_of(sep_str.as_str());
            if sepv.len() == 0 {
                proof {
                    if all_miss {
                        assert(self.separators@[si as int]@.len() >= 1);
                        assert(false);
                    }
                }
                let mut parts: Vec<String> = Vec::new();
                let mut i: usize = 0;
                while i < tv.len()
                    invariant
                        tv@ == text@,
                        i <= tv@.len(),
                        parts@.len() == i,
                        forall|j: int| 0 <= j < parts@.len() ==> (#[trigger] parts@[j])@ == seq![
                            text@[j],
                        ],
                    decreases tv@.len() - i,
                {
                    let mut s = String::new();
                    s.push(tv[i]);
                    proof {
                        assert(s@ =~= seq![text@[i as int]]);
                    }
                    parts.push(s);
                    i += 1;
                }
                return parts;
            }
            let found = find_occurrence(&tv, 0, &sepv);
            match found {
                Some(at) => {
                    proof {
                        if all_miss {
                            assert(occurs_at(text@, self.separators@[si as int]@, at as int));
                            assert(false);
                        }
                        if first_empty {
                            assert(self.separators@[0]@.len() == 0);
                            assert(false);
                        }
                    }
                    let parts = split_by_separator(&tv, &sepv, sep_str.as_str(), self.keep_separator);
                    if parts.len() > 0 {
                        return parts;
                    }
                },
                None => (),
            }
            proof {
                if first_empty {
                    assert(self.separators@[0]@.len() == 0);
                    assert(self.separators@[si as int]@ == sepv@);
                    assert(false);
                }
            }
            si += 1;
        }
        proof {
            if first_empty {
                assert(false);
            }
        }
        let mut fallback: Vec<String> = Vec::new();
        fallback.push(text.to_owned());
        fallback
    }

    /// Merges pieces into chunks: pieces accumulate until adding the
    /// next one would push the chunk past the target size, then the
    /// chunk is emitted; with a positive overlap, trailing pieces
    /// fitting within the overlap seed the next chunk. Under a zero
    /// overlap the chunks hold exactly the concatenation of the
    /// pieces.
    #[verifier::rlimit(60)]
    pub fn merge_splits(&self, splits: Vec<String>) -> (r: Vec<String>)
        ensures
            self.chunk_size.chunk_overlap == 0 ==> concat_strs(r@) == concat_strs(splits@),
    {
        let ghost all = splits@;
        let ghost size = self.chunk_size.chunk_size as int;
        let ghost overlap = self.chunk_size.chunk_overlap as int;
        let mut rest = splits;
        let ghost mut k: int = 0;
        let mut docs: Vec<String> = Vec::new();
        let mut current_doc: Vec<String> = Vec::new();
        let mut current_length: usize = 0;
        while rest.len() > 0
            invariant
                0 <= k <= all.len(),
                rest@ == all.skip(k),
                size == self.chunk_size.chunk_size as int,
                overlap == self.chunk_size.chunk_overlap as int,
                self.chunk_size.chunk_overlap == 0 ==> concat_strs(docs@) + concat_strs(
                    current_doc@,
                ) == concat_strs(all.take(k)),
                current_doc@.len() == 0 ==> current_length == 0,
                has_oversized(all, size, overlap) || (concat_strs(current_doc@).len()
                    <= current_length && current_length <= size && (forall|i: int|
                    0 <= i < docs@.len() ==> (#[trigger] docs@[i])@.len() <= size)),
            decreases rest@.len(),
        {
            let split = rest.remove(0);
            proof {
                assert(all.skip(k)[0] == all[k]);
                assert(rest@ =~= all.skip(k + 1));
            }
            let ghost sv = split@;
            proof {
                assert(sv == all[k]@);
            }
            let split_length = split.as_str().unicode_len();
            let over = split_length > usize::MAX - current_length || current_length + split_length
                > self.chunk_size.chunk_size;
            proof {
                // A piece too large for one chunk exonerates every
                // bound from here on.
                if split_length + overlap > size {
                    assert(all[k]@.len() + overlap > size);
                    assert(has_oversized(all, size, overlap));
                }
            }
            let ghost doc0 = current_doc@;
            let ghost cur0 = current_length as int;
            if over && current_doc.len() > 0 {
                let joined = concat_strings(&current_doc);
                proof {
                    lemma_concat_push(docs@, joined);
                    if !has_oversized(all, size, overlap) {
                        assert(joined@.len() <= size);
                    }
                }
                docs.push(joined);
                if self.chunk_size.chunk_overlap > 0 {
                    let overlap = self.chunk_size.chunk_overlap;
                    let ovl = self.chunk_size.chunk_overlap;
                    let mut overlap_length: usize = 0;
                    let mut overlap_splits: Vec<String> = Vec::new();
                    let mut p = current_doc.len();
                    let mut salvage = true;
                    while p > 0 && salvage
                        invariant
                            ovl == self.chunk_size.chunk_overlap,
                            p <= current_doc@.len(),
                            overlap_length <= ovl,
                            concat_strs(overlap_splits@).len() <= overlap_length,
                        decreases p + (if salvage { 1int } else { 0int }),
                    {
                        let piece = &current_doc[p - 1];
                        let pl = piece.as_str().unicode_len();
                        if pl > ovl - overlap_length {
                            salvage = false;
                        } else {
                            let copy = piece.clone();
                            proof {
                                lemma_concat_insert_front_len(overlap_splits@, copy);
                            }
                            overlap_length = overlap_length + pl;
                            overlap_splits.insert(0, copy);
                            p -= 1;
                        }
                    }
                    current_doc = overlap_splits;
                    current_length = overlap_length;
                } else {
                    current_doc = Vec::new();
                    current_length = 0;
                }
            }
            proof {
                lemma_concat_push(current_doc@, split);
                assert(all.take(k + 1).drop_last() =~= all.take(k));
                assert(all.take(k + 1).last() == all[k]);
            }
            let ghost cur_mid = current_length as int;
            let ghost mid_doc = current_doc@;
            current_doc.push(split);
            current_length = if split_length > usize::MAX - current_length {
                usize::MAX
            } else {
                current_length + split_length
            };
            proof {
                if !has_oversized(all, size, overlap) {
                    assert(all[k]@.len() + overlap <= size);
                    assert(sv.len() == split_length);
                    assert(concat_strs(current_doc@).len() == concat_strs(mid_doc).len()
                        + sv.len());
                    if over && doc0.len() > 0 {
                        // flushed: the chunk left, the salvage stays
                        // within the overlap
                        assert(cur_mid <= overlap);
                        assert(concat_strs(mid_doc).len() <= cur_mid);
                        if split_length as int > usize::MAX - cur_mid {
                            assert(split_length + overlap > size);
                            assert(false);
                        }
                        assert(current_length == cur_mid + split_length);
                    } else if over {
                        // the piece opens a fresh chunk
                        assert(doc0.len() == 0);
                        assert(cur_mid == 0);
                        assert(concat_strs(mid_doc).len() == 0) by {
                            assert(mid_doc =~= Seq::<String>::empty());
                        }
                    } else {
                        assert(cur_mid + split_length <= size);
                        assert(concat_strs(mid_doc).len() <= cur_mid);
                    }
                }
                k = k + 1;
            }
        }
        if current_doc.len() > 0 {
            let joined = concat_strings(&current_doc);
            proof {
                lemma_concat_push(docs@, joined);
                assert(all.take(k) =~= all);
                if !has_oversized(all, size, overlap) {
                    assert(joined@.len() <= size);
                }
            }
            docs.push(joined);
        } else {
            proof {
                assert(all.take(k) =~= all);
                assert(concat_strs(current_doc@) =~= Seq::<char>::empty());
            }
        }
        docs
    }

    /// Splits `text` into pieces and merges them into size-bounded
    /// chunks.
    pub fn split_text(&self, text: &str) -> (r: Result<Vec<String>, Error>)
        ensures
            r is Ok,
    {
        let splits = self.split_text_with_separators(text);
        Ok(self.merge_splits(splits))
    }

    /// Splits every document's content, carrying each source
    /// document's metadata onto its chunks.
    pub fn split_documents(&self, documents: Vec<Document>) -> (r: Result<Vec<Document>, Error>)
        ensures
            r is Ok,
    {
        let mut result: Vec<Document> = Vec::new();
        let mut rest = documents;
        while rest.len() > 0
            decreases rest@.len(),
        {
            let doc = rest.remove(0);
            let texts = match self.split_text(doc.page_content.as_str()) {
                Ok(t) => t,
                Err(e) => {
                    return Err(e);
                },
            };
            let mut trest = texts;
            while trest.len() > 0
                decreases trest@.len(),
            {
                let chunk = trest.remove(0);
                result.push(
                    Document { page_content: chunk, metadata: duplicate_entries(&doc.metadata) },
                );
            }
        }
        Ok(result)
    }
}

} // verus!
