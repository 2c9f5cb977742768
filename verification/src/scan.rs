//! The compute side of import-folder scanning: which files are candidates,
//! which folders are skipped, and the deterministic ordering of the results.
//! Walking the filesystem itself stays with the caller; this module decides
//! and orders.
use vstd::prelude::*;
use vstd::utf8::encode_utf8;

verus! {

/// One candidate import file found in a scanned folder.
#[derive(Debug, Clone)]
pub struct ScannedFile {
    pub filename: String,
    pub file_path: String,
    pub size_bytes: u64,
    pub modified_at: String,
}

/// One scanned source folder and its candidate files.
#[derive(Debug, Clone)]
pub struct ScannedSource {
    pub folder_name: String,
    pub folder_path: String,
    pub files: Vec<ScannedFile>,
}

/// Byte-lexicographic order: the order `str` comparison gives, applied to
/// the UTF-8 bytes of a name.
pub open spec fn bytes_le(a: Seq<u8>, b: Seq<u8>) -> bool
    decreases a.len(),
{
    if a.len() == 0 {
        true
    } else if b.len() == 0 {
        false
    } else if a[0] < b[0] {
        true
    } else if a[0] > b[0] {
        false
    } else {
        bytes_le(a.drop_first(), b.drop_first())
    }
}

/// The order is total.
pub proof fn lemma_bytes_le_total(a: Seq<u8>, b: Seq<u8>)
    ensures
        bytes_le(a, b) || bytes_le(b, a),
    decreases a.len(),
{
    if a.len() > 0 && b.len() > 0 && a[0] == b[0] {
        lemma_bytes_le_total(a.drop_first(), b.drop_first());
    }
}

/// The order is transitive.
pub proof fn lemma_bytes_le_trans(a: Seq<u8>, b: Seq<u8>, c: Seq<u8>)
    requires
        bytes_le(a, b),
        bytes_le(b, c),
    ensures
        bytes_le(a, c),
    decreases a.len(),
{
    if a.len() > 0 && b.len() > 0 && c.len() > 0 && a[0] == b[0] && b[0] == c[0] {
        lemma_bytes_le_trans(a.drop_first(), b.drop_first(), c.drop_first());
    }
}

/// Compare two names in byte-lexicographic order.
pub fn name_le(a: &str, b: &str) -> (r: bool)
    ensures
        r == bytes_le(encode_utf8(a@), encode_utf8(b@)),
{
    let av = a.as_bytes_vec();
    let bv = b.as_bytes_vec();
    let an = av.len();
    let bn = bv.len();
    let mut i: usize = 0;
    proof {
        assert(av@.skip(0) =~= av@);
        assert(bv@.skip(0) =~= bv@);
    }
    loop
        invariant
            i <= an,
            i <= bn,
            an == av@.len(),
            bn == bv@.len(),
            av@ == encode_utf8(a@),
            bv@ == encode_utf8(b@),
            forall|k: int| 0 <= k < i ==> av@[k] == bv@[k],
            bytes_le(av@, bv@) == bytes_le(av@.skip(i as int), bv@.skip(i as int)),
        decreases an - i,
    {
        if i == an {
            proof {
                assert(av@.skip(i as int).len() == 0);
            }
            return true;
        }
        if i == bn {
            proof {
                assert(bv@.skip(i as int).len() == 0);
                assert(av@.skip(i as int).len() > 0);
            }
            return false;
        }
        let x = av[i];
        let y = bv[i];
        proof {
            assert(av@.skip(i as int)[0] == av@[i as int]);
            assert(bv@.skip(i as int)[0] == bv@[i as int]);
        }
        if x < y {
            return true;
        }
        if x > y {
            return false;
        }
        proof {
            assert(av@.skip(i as int).drop_first() =~= av@.skip(i + 1));
            assert(bv@.skip(i as int).drop_first() =~= bv@.skip(i + 1));
        }
        i = i + 1;
    }
}

/// The sort key of a scanned file.
pub open spec fn file_key(f: ScannedFile) -> Seq<u8> {
    encode_utf8(f.filename@)
}

/// The sort key of a scanned source folder.
pub open spec fn source_key(s: ScannedSource) -> Seq<u8> {
    encode_utf8(s.folder_name@)
}

/// True when the files stand in byte-lexicographic filename order.
pub open spec fn files_sorted(s: Seq<ScannedFile>) -> bool {
    forall|i: int, j: int| 0 <= i < j < s.len() ==> bytes_le(file_key(s[i]), file_key(s[j]))
}

/// True when the sources stand in byte-lexicographic folder-name order.
pub open spec fn sources_sorted(s: Seq<ScannedSource>) -> bool {
    forall|i: int, j: int| 0 <= i < j < s.len() ==> bytes_le(source_key(s[i]), source_key(s[j]))
}

/// Sort scanned files by filename: afterwards the same files stand in
/// byte-lexicographic order.
pub fn sort_files(v: &mut Vec<ScannedFile>)
    ensures
        files_sorted(final(v)@),
        final(v)@.to_multiset() == old(v)@.to_multiset(),
        final(v)@.len() == old(v)@.len(),
{
    let ghost orig = v@;
    let n = v.len();
    if n <= 1 {
        return;
    }
    let mut i: usize = 1;
    while i < n
        invariant
            1 <= i <= n,
            n == v@.len(),
            v@.to_multiset() == orig.to_multiset(),
            files_sorted(v@.take(i as int)),
        decreases n - i,
    {
        let mut j: usize = i;
        let mut placing = true;
        proof {
            assert(forall|k: int| 0 <= k < i ==> v@.take(i as int)[k] == v@[k]);
        }
        while placing && j > 0
            invariant
                0 <= j <= i < n,
                n == v@.len(),
                v@.to_multiset() == orig.to_multiset(),
                forall|k: int, l: int|
                    0 <= k < l <= i && l != j ==> bytes_le(file_key(v@[k]), file_key(v@[l])),
                forall|k: int| j < k <= i ==> bytes_le(file_key(v@[j as int]), file_key(v@[k])),
                !placing ==> forall|k: int|
                    0 <= k < j ==> bytes_le(file_key(v@[k]), file_key(v@[j as int])),
            decreases j + if placing {
                1int
            } else {
                0int
            },
        {
            let stays = {
                let prev = &v[j - 1];
                let here = &v[j];
                name_le(prev.filename.as_str(), here.filename.as_str())
            };
            if stays {
                proof {
                    assert forall|k: int| 0 <= k < j implies bytes_le(
                        file_key(v@[k]),
                        file_key(v@[j as int]),
                    ) by {
                        if k < j - 1 {
                            lemma_bytes_le_trans(
                                file_key(v@[k]),
                                file_key(v@[j - 1]),
                                file_key(v@[j as int]),
                            );
                        }
                    }
                }
                placing = false;
            } else {
                proof {
                    lemma_bytes_le_total(file_key(v@[j - 1]), file_key(v@[j as int]));
                }
                let ghost before = v@;
                let moved = v.remove(j);
                let ghost mid = v@;
                v.insert(j - 1, moved);
                proof {
                    broadcast use vstd::seq_lib::group_to_multiset_ensures;
                    broadcast use vstd::multiset::group_multiset_axioms;

                    assert(v@ =~= before.update(j - 1, before[j as int]).update(
                        j as int,
                        before[j - 1],
                    ));
                    assert(mid.to_multiset() == before.to_multiset().remove(before[j as int]));
                    assert(v@.to_multiset() == mid.to_multiset().insert(before[j as int]));
                    assert(before.contains(before[j as int]));
                    assert(before.to_multiset().count(before[j as int]) > 0);
                    assert(v@.to_multiset() =~= before.to_multiset());
                }
                j = j - 1;
            }
        }
        proof {
            assert forall|k: int, l: int|
                0 <= k < l < i + 1 implies bytes_le(
                file_key(#[trigger] v@.take(i + 1)[k]),
                file_key(#[trigger] v@.take(i + 1)[l]),
            ) by {
                assert(v@.take(i + 1)[k] == v@[k]);
                assert(v@.take(i + 1)[l] == v@[l]);
                if l == j && j > 0 {
                    assert(bytes_le(file_key(v@[k]), file_key(v@[l])));
                }
            }
            assert(files_sorted(v@.take(i + 1)));
        }
        i = i + 1;
    }
    proof {
        broadcast use vstd::seq_lib::group_to_multiset_ensures;

        assert(v@.take(n as int) =~= v@);
    }
}


/// Sort scanned sources by folder name: afterwards the same sources stand
/// in byte-lexicographic order.
pub fn sort_sources(v: &mut Vec<ScannedSource>)
    ensures
        sources_sorted(final(v)@),
        final(v)@.to_multiset() == old(v)@.to_multiset(),
        final(v)@.len() == old(v)@.len(),
{
    let ghost orig = v@;
    let n = v.len();
    if n <= 1 {
        return;
    }
    let mut i: usize = 1;
    while i < n
        invariant
            1 <= i <= n,
            n == v@.len(),
            v@.to_multiset() == orig.to_multiset(),
            sources_sorted(v@.take(i as int)),
        decreases n - i,
    {
        let mut j: usize = i;
        let mut placing = true;
        proof {
            assert(forall|k: int| 0 <= k < i ==> v@.take(i as int)[k] == v@[k]);
        }
        while placing && j > 0
            invariant
                0 <= j <= i < n,
                n == v@.len(),
                v@.to_multiset() == orig.to_multiset(),
                forall|k: int, l: int|
                    0 <= k < l <= i && l != j ==> bytes_le(source_key(v@[k]), source_key(v@[l])),
                forall|k: int| j < k <= i ==> bytes_le(source_key(v@[j as int]), source_key(v@[k])),
                !placing ==> forall|k: int|
                    0 <= k < j ==> bytes_le(source_key(v@[k]), source_key(v@[j as int])),
            decreases j + if placing {
                1int
            } else {
                0int
            },
        {
            let stays = {
                let prev = &v[j - 1];
                let here = &v[j];
                name_le(prev.folder_name.as_str(), here.folder_name.as_str())
            };
            if stays {
                proof {
                    assert forall|k: int| 0 <= k < j implies bytes_le(
                        source_key(v@[k]),
                        source_key(v@[j as int]),
                    ) by {
                        if k < j - 1 {
                            lemma_bytes_le_trans(
                                source_key(v@[k]),
                                source_key(v@[j - 1]),
                                source_key(v@[j as int]),
                            );
                        }
                    }
                }
                placing = false;
            } else {
                proof {
                    lemma_bytes_le_total(source_key(v@[j - 1]), source_key(v@[j as int]));
                }
                let ghost before = v@;
                let moved = v.remove(j);
                let ghost mid = v@;
                v.insert(j - 1, moved);
                proof {
                    broadcast use vstd::seq_lib::group_to_multiset_ensures;
                    broadcast use vstd::multiset::group_multiset_axioms;

                    assert(v@ =~= before.update(j - 1, before[j as int]).update(
                        j as int,
                        before[j - 1],
                    ));
                    assert(mid.to_multiset() == before.to_multiset().remove(before[j as int]));
                    assert(v@.to_multiset() == mid.to_multiset().insert(before[j as int]));
                    assert(before.contains(before[j as int]));
                    assert(before.to_multiset().count(before[j as int]) > 0);
                    assert(v@.to_multiset() =~= before.to_multiset());
                }
                j = j - 1;
            }
        }
        proof {
            assert forall|k: int, l: int|
                0 <= k < l < i + 1 implies bytes_le(
                source_key(#[trigger] v@.take(i + 1)[k]),
                source_key(#[trigger] v@.take(i + 1)[l]),
            ) by {
                assert(v@.take(i + 1)[k] == v@[k]);
                assert(v@.take(i + 1)[l] == v@[l]);
                if l == j && j > 0 {
                    assert(bytes_le(source_key(v@[k]), source_key(v@[l])));
                }
            }
            assert(sources_sorted(v@.take(i + 1)));
        }
        i = i + 1;
    }
    proof {
        broadcast use vstd::seq_lib::group_to_multiset_ensures;

        assert(v@.take(n as int) =~= v@);
    }
}

/// True when a file extension marks an import candidate: `csv` or `txt` in
/// any letter case.
pub open spec fn accepted_extension(ext: Seq<char>) -> bool {
    crate::textutil::ascii_lower_chars(ext) == "csv"@ || crate::textutil::ascii_lower_chars(ext)
        == "txt"@
}

/// Whether a file with this extension is an import candidate.
pub fn accepts_extension(ext: &str) -> (r: bool)
    ensures
        r == accepted_extension(ext@),
{
    crate::textutil::label_matches(ext, "csv") || crate::textutil::label_matches(ext, "txt")
}

/// True when a folder name is hidden: it opens with a dot.
pub open spec fn hidden_name(name: Seq<char>) -> bool {
    name.len() > 0 && name[0] == '.'
}

/// Whether a folder is skipped by the scan as hidden.
pub fn is_hidden_name(name: &str) -> (r: bool)
    ensures
        r == hidden_name(name@),
{
    if name.is_empty() {
        return false;
    }
    name.get_char(0) == '.'
}

} // verus!
