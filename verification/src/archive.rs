//! Package archives: content hashing, extraction, and the payload file
//! list.
//!
//! An archive is a gzip-compressed tar whose entries carry the package:
//! a metadata file, a `mask/` subtree that maps onto absolute paths
//! under the target root, and optional hook scripts. Decompression, tar
//! walking and the digest come from outside crates behind trusted
//! wrappers; everything on top of them is verified.
use vstd::prelude::*;
use vstd::string::*;
use crate::chars::strings_view;

verus! {

/// Why an archive could not be unpacked.
#[derive(Debug, Clone, Copy, PartialEq, Eq, Structural)]
pub enum ExtractError {
    /// The gzip stream is truncated or corrupt.
    CorruptGzip,
    /// The tar content is truncated or corrupt.
    CorruptArchive,
}

/// One entry of an unpacked archive.
#[derive(Debug)]
pub struct ArchiveEntry {
    pub path: String,
    pub is_file: bool,
    pub data: Vec<u8>,
}

impl View for ArchiveEntry {
    type V = (Seq<char>, bool, Seq<u8>);

    open spec fn view(&self) -> Self::V {
        (self.path@, self.is_file, self.data@)
    }
}

/// The views of an entry sequence, in order.
pub open spec fn entries_view(es: Seq<ArchiveEntry>) -> Seq<(Seq<char>, bool, Seq<u8>)> {
    es.map_values(|e: ArchiveEntry| e@)
}

/// The SHA-256 digest of a byte sequence.
pub uninterp spec fn sha256_of(data: Seq<u8>) -> Seq<u8>;

/// What a gzip stream decompresses to.
pub uninterp spec fn gunzip_of(data: Seq<u8>) -> Seq<u8>;

/// Whether the bytes are a decodable gzip stream.
pub uninterp spec fn gunzip_ok_of(data: Seq<u8>) -> bool;

/// The entries of a tar stream: path, regular-file flag, contents.
pub uninterp spec fn tar_entries_of(data: Seq<u8>) -> Seq<(Seq<char>, bool, Seq<u8>)>;

/// Whether the bytes are a readable tar stream.
pub uninterp spec fn tar_ok_of(data: Seq<u8>) -> bool;

/// Relies on sha2::Sha256 through the Digest trait: a 32-byte digest
/// that depends on the input bytes alone.
#[verifier::external_body]
fn sha256(data: &Vec<u8>) -> (r: Vec<u8>)
    ensures
        r@ == sha256_of(data@),
        r@.len() == 32,
{
    let d = <sha2::Sha256 as sha2::Digest>::digest(data.as_slice());
    d.to_vec()
}

/// Relies on flate2::read::GzDecoder: decompresses a gzip stream;
/// success and result depend on the input bytes alone.
#[verifier::external_body]
fn gunzip(data: &Vec<u8>) -> (r: Result<Vec<u8>, ExtractError>)
    ensures
        r is Ok <==> gunzip_ok_of(data@),
        r matches Ok(o) ==> o@ == gunzip_of(data@),
        r matches Err(e) ==> e == ExtractError::CorruptGzip,
{
    let mut d = flate2::read::GzDecoder::new(&data[..]);
    let mut out = Vec::new();
    match std::io::Read::read_to_end(&mut d, &mut out) {
        Ok(_) => Ok(out),
        Err(_) => Err(ExtractError::CorruptGzip),
    }
}

/// Relies on tar::Archive over in-memory bytes: lists each entry's
/// path, type and contents; success and result depend on the input
/// bytes alone.
#[verifier::external_body]
fn untar(data: &Vec<u8>) -> (r: Result<Vec<ArchiveEntry>, ExtractError>)
    ensures
        r is Ok <==> tar_ok_of(data@),
        r matches Ok(es) ==> entries_view(es@) == tar_entries_of(data@),
        r matches Err(e) ==> e == ExtractError::CorruptArchive,
{
    let mut archive = tar::Archive::new(&data[..]);
    let mut out = Vec::new();
    let err = ExtractError::CorruptArchive;
    for entry in archive.entries().or(Err(err))? {
        let mut entry = entry.or(Err(err))?;
        let path = entry.path().or(Err(err))?.to_string_lossy().into_owned();
        let is_file = entry.header().entry_type().is_file();
        let mut buf = Vec::new();
        std::io::Read::read_to_end(&mut entry, &mut buf).or(Err(err))?;
        out.push(ArchiveEntry { path, is_file, data: buf });
    }
    Ok(out)
}

/// The lower-case hex digit for a value below sixteen.
pub open spec fn hex_char(n: int) -> char {
    if n < 10 {
        ((48 + n) as u32) as char
    } else {
        ((87 + n) as u32) as char
    }
}

/// The lower-case hex rendering of a byte sequence, two digits a byte.
pub open spec fn hex_of(data: Seq<u8>) -> Seq<char>
    decreases data.len(),
{
    if data.len() == 0 {
        Seq::empty()
    } else {
        seq![hex_char(data[0] as int / 16), hex_char(data[0] as int % 16)] + hex_of(data.drop_first())
    }
}

/// The content hash of an archive: the hex rendering of its digest.
pub open spec fn package_hash(data: Seq<u8>) -> Seq<char> {
    hex_of(sha256_of(data))
}

/// The one-character string for a hex digit value.
fn hex_digit(n: u8) -> (r: &'static str)
    requires
        n < 16,
    ensures
        r@.len() == 1,
        r@[0] == hex_char(n as int),
{
    proof {
        reveal_strlit("0");
        reveal_strlit("1");
        reveal_strlit("2");
        reveal_strlit("3");
        reveal_strlit("4");
        reveal_strlit("5");
        reveal_strlit("6");
        reveal_strlit("7");
        reveal_strlit("8");
        reveal_strlit("9");
        reveal_strlit("a");
        reveal_strlit("b");
        reveal_strlit("c");
        reveal_strlit("d");
        reveal_strlit("e");
        reveal_strlit("f");
    }
    match n {
        0 => "0",
        1 => "1",
        2 => "2",
        3 => "3",
        4 => "4",
        5 => "5",
        6 => "6",
        7 => "7",
        8 => "8",
        9 => "9",
        10 => "a",
        11 => "b",
        12 => "c",
        13 => "d",
        14 => "e",
        _ => "f",
    }
}

/// Renders bytes as lower-case hex, two digits a byte.
fn to_hex(data: &Vec<u8>) -> (r: String)
    ensures
        r@ == hex_of(data@),
{
    let n = data.len();
    let mut out = String::new();
    let mut i: usize = 0;
    proof {
        assert(data@.skip(0) =~= data@);
        assert(out@ + hex_of(data@) =~= hex_of(data@));
    }
    while i < n
        invariant
            i <= n,
            n == data@.len(),
            hex_of(data@) == out@ + hex_of(data@.skip(i as int)),
        decreases n - i,
    {
        let ghost out0 = out@;
        let b = data[i];
        out.append(hex_digit(b / 16));
        out.append(hex_digit(b % 16));
        proof {
            let rem = data@.skip(i as int);
            assert(rem[0] == b);
            assert(rem.drop_first() =~= data@.skip(i + 1));
            assert(hex_of(rem) == seq![hex_char(b as int / 16), hex_char(b as int % 16)] + hex_of(
                data@.skip(i + 1),
            ));
            assert(out@ + hex_of(data@.skip(i + 1)) =~= out0 + hex_of(rem));
        }
        i = i + 1;
    }
    proof {
        assert(data@.skip(n as int) =~= Seq::<u8>::empty());
        assert(hex_of(Seq::<u8>::empty()) =~= Seq::<char>::empty());
    }
    out
}

/// Hex rendering yields two characters a byte.
pub proof fn lemma_hex_of_len(data: Seq<u8>)
    ensures
        hex_of(data).len() == 2 * data.len(),
    decreases data.len(),
{
    if data.len() > 0 {
        lemma_hex_of_len(data.drop_first());
    }
}

/// The content hash of an archive's bytes: 64 hex digits.
/// Deterministic: the same bytes always hash to the same string, which
/// names the staging directory and so makes re-extraction reuse prior
/// work.
pub fn hash_package(data: &Vec<u8>) -> (r: String)
    ensures
        r@ == package_hash(data@),
        r@.len() == 64,
{
    let digest = sha256(data);
    proof {
        lemma_hex_of_len(digest@);
    }
    to_hex(&digest)
}

/// Hashing is deterministic and stable: archives with the same content
/// always carry the same hash, across any number of calls.
pub proof fn lemma_hash_deterministic(a: Seq<u8>, b: Seq<u8>)
    requires
        a == b,
    ensures
        package_hash(a) == package_hash(b),
{
}

/// Unpacks an archive held in memory: gunzip, then tar. Succeeds
/// exactly when the bytes decompress and the decompressed stream is a
/// readable tar; the entries are then exactly that stream's entries.
pub fn extract(data: &Vec<u8>) -> (r: Result<Vec<ArchiveEntry>, ExtractError>)
    ensures
        r is Ok <==> gunzip_ok_of(data@) && tar_ok_of(gunzip_of(data@)),
        r matches Ok(es) ==> entries_view(es@) == tar_entries_of(gunzip_of(data@)),
        r matches Err(e) ==> e == (if !gunzip_ok_of(data@) {
            ExtractError::CorruptGzip
        } else {
            ExtractError::CorruptArchive
        }),
{
    let raw = match gunzip(data) {
        Ok(o) => o,
        Err(e) => {
            return Err(e);
        },
    };
    untar(&raw)
}

/// An entry path with a leading `./` removed.
pub open spec fn normalize_path(p: Seq<char>) -> Seq<char> {
    if p.len() >= 2 && p[0] == '.' && p[1] == '/' {
        p.skip(2)
    } else {
        p
    }
}

/// The entry is the package's metadata file.
pub open spec fn is_manifest_entry(e: (Seq<char>, bool, Seq<u8>)) -> bool {
    e.1 && normalize_path(e.0) == "package.yml"@
}

/// The entry is a payload file: a regular file under the `mask/`
/// subtree with a non-empty relative path.
pub open spec fn is_payload_entry(e: (Seq<char>, bool, Seq<u8>)) -> bool {
    &&& e.1
    &&& normalize_path(e.0).len() > 5
    &&& normalize_path(e.0).subrange(0, 5) == "mask/"@
}

/// The absolute target-root path a payload entry materializes to.
pub open spec fn payload_dest(e: (Seq<char>, bool, Seq<u8>)) -> Seq<char> {
    seq!['/'] + normalize_path(e.0).skip(5)
}

/// The destination paths of all payload files, in entry order.
pub open spec fn payload_dests(es: Seq<(Seq<char>, bool, Seq<u8>)>) -> Seq<Seq<char>>
    decreases es.len(),
{
    if es.len() == 0 {
        Seq::empty()
    } else {
        (if is_payload_entry(es[0]) {
            seq![payload_dest(es[0])]
        } else {
            Seq::<Seq<char>>::empty()
        }) + payload_dests(es.drop_first())
    }
}

/// Strips a leading `./` from an entry path.
fn normalize_path_exec(p: &str) -> (r: String)
    ensures
        r@ == normalize_path(p@),
{
    let n = p.unicode_len();
    if n >= 2 && p.get_char(0) == '.' && p.get_char(1) == '/' {
        let r = p.substring_char(2, n).to_owned();
        proof {
            assert(r@ =~= p@.skip(2));
        }
        r
    } else {
        p.to_owned()
    }
}

/// The index of the archive's metadata file, if it has one: the first
/// regular-file entry named `package.yml` (a leading `./` does not
/// count).
pub fn find_manifest_entry(entries: &Vec<ArchiveEntry>) -> (r: Option<usize>)
    ensures
        r is Some <==> exists|i: int|
            0 <= i < entries@.len() && is_manifest_entry(#[trigger] entries@[i]@),
        r matches Some(i) ==> i < entries@.len() && is_manifest_entry(entries@[i as int]@) && (
        forall|j: int| 0 <= j < i ==> !is_manifest_entry(#[trigger] entries@[j]@)),
{
    let n = entries.len();
    let mut i: usize = 0;
    while i < n
        invariant
            i <= n,
            n == entries@.len(),
            forall|j: int| 0 <= j < i ==> !is_manifest_entry(#[trigger] entries@[j]@),
        decreases n - i,
    {
        if entries[i].is_file {
            let norm = normalize_path_exec(entries[i].path.as_str());
            if crate::chars::str_eq(norm.as_str(), "package.yml") {
                proof {
                    assert(is_manifest_entry(entries@[i as int]@));
                }
                return Some(i);
            }
        }
        i = i + 1;
    }
    None
}

/// The absolute destination paths of the archive's payload files, in
/// entry order: each `mask/<rel>` file lands at `/<rel>` under the
/// target root.
pub fn payload_file_paths(entries: &Vec<ArchiveEntry>) -> (r: Vec<String>)
    ensures
        strings_view(r@) == payload_dests(entries_view(entries@)),
{
    let ghost all = entries_view(entries@);
    let n = entries.len();
    let mut out: Vec<String> = Vec::new();
    let mut i: usize = 0;
    proof {
        assert(strings_view(out@) =~= Seq::<Seq<char>>::empty());
        assert(all.skip(0) =~= all);
        assert(Seq::<Seq<char>>::empty() + payload_dests(all) =~= payload_dests(all));
    }
    while i < n
        invariant
            i <= n,
            n == entries@.len(),
            all == entries_view(entries@),
            payload_dests(all) == strings_view(out@) + payload_dests(all.skip(i as int)),
        decreases n - i,
    {
        let ghost rem = all.skip(i as int);
        proof {
            assert(rem[0] == entries@[i as int]@);
            assert(rem.drop_first() =~= all.skip(i + 1));
        }
        let is_payload = if entries[i].is_file {
            let norm = normalize_path_exec(entries[i].path.as_str());
            let nn = norm.as_str().unicode_len();
            if nn > 5 {
                proof {
                    reveal_strlit("mask/");
                }
                let head = norm.as_str().substring_char(0, 5);
                crate::chars::str_eq(head, "mask/")
            } else {
                false
            }
        } else {
            false
        };
        proof {
            assert(is_payload == is_payload_entry(rem[0]));
        }
        let ghost out0 = strings_view(out@);
        if is_payload {
            let norm = normalize_path_exec(entries[i].path.as_str());
            let nn = norm.as_str().unicode_len();
            let rel = norm.as_str().substring_char(5, nn);
            let slash: &str = "/";
            proof {
                reveal_strlit("/");
                assert(slash@ =~= seq!['/']);
            }
            let dest = slash.to_owned().concat(rel);
            proof {
                assert(dest@ =~= payload_dest(rem[0]));
            }
            out.push(dest);
            proof {
                assert(strings_view(out@) =~= out0.push(payload_dest(rem[0])));
                assert(strings_view(out@) + payload_dests(all.skip(i + 1)) =~= out0
                    + payload_dests(rem));
            }
        } else {
            proof {
                assert(strings_view(out@) + payload_dests(all.skip(i + 1)) =~= out0
                    + payload_dests(rem));
            }
        }
        i = i + 1;
    }
    proof {
        assert(all.skip(n as int) =~= Seq::<(Seq<char>, bool, Seq<u8>)>::empty());
        assert(payload_dests(Seq::<(Seq<char>, bool, Seq<u8>)>::empty())
            =~= Seq::<Seq<char>>::empty());
        assert(strings_view(out@) + Seq::<Seq<char>>::empty() =~= strings_view(out@));
    }
    out
}


/// The entry lies in (or is) the `mask` payload subtree.
pub open spec fn is_mask_entry(e: (Seq<char>, bool, Seq<u8>)) -> bool {
    ||| normalize_path(e.0) == "mask"@
    ||| (normalize_path(e.0).len() >= 5 && normalize_path(e.0).subrange(0, 5) == "mask/"@)
}

/// The archive carries a payload subtree at all.
pub open spec fn has_payload(es: Seq<(Seq<char>, bool, Seq<u8>)>) -> bool {
    exists|i: int| 0 <= i < es.len() && is_mask_entry(#[trigger] es[i])
}

/// Whether any entry lies in the `mask` payload subtree. A package
/// without one has nothing to install.
pub fn has_payload_entry(entries: &Vec<ArchiveEntry>) -> (r: bool)
    ensures
        r == has_payload(entries_view(entries@)),
{
    let ghost all = entries_view(entries@);
    let n = entries.len();
    let mut i: usize = 0;
    while i < n
        invariant
            i <= n,
            n == entries@.len(),
            all == entries_view(entries@),
            forall|j: int| 0 <= j < i ==> !is_mask_entry(#[trigger] all[j]),
        decreases n - i,
    {
        proof {
            assert(all[i as int] == entries@[i as int]@);
        }
        let norm = normalize_path_exec(entries[i].path.as_str());
        let nn = norm.as_str().unicode_len();
        if crate::chars::str_eq(norm.as_str(), "mask") {
            proof {
                assert(is_mask_entry(all[i as int]));
            }
            return true;
        }
        if nn >= 5 {
            proof {
                reveal_strlit("mask/");
            }
            if crate::chars::str_eq(norm.as_str().substring_char(0, 5), "mask/") {
                proof {
                    assert(is_mask_entry(all[i as int]));
                }
                return true;
            }
        }
        proof {
            reveal_strlit("mask");
            reveal_strlit("mask/");
            assert(!is_mask_entry(all[i as int]));
        }
        i = i + 1;
    }
    false
}

} // verus!
