//! The archive reader: a zip container is opened over its bytes and every
//! entry is read into an owned record (name, flags, sizes, content), so that
//! all later reasoning is over plain values. Opening and per-entry reading go
//! through trusted wrappers around the zip crate; the iteration itself is
//! verified.

use vstd::prelude::*;

verus! {

/// One archive entry, fully read: its raw name bytes, its directory flag,
/// the archive-reported sizes and its decompressed content.
pub struct ArchiveEntry {
    pub name: Vec<u8>,
    pub is_dir: bool,
    pub compressed_size: u64,
    pub uncompressed_size: u64,
    pub data: Vec<u8>,
}

/// The mathematical shape of one entry.
pub ghost struct EntryModel {
    pub name: Seq<u8>,
    pub is_dir: bool,
    pub compressed_size: u64,
    pub uncompressed_size: u64,
    pub data: Seq<u8>,
}

impl View for ArchiveEntry {
    type V = EntryModel;

    open spec fn view(&self) -> EntryModel {
        EntryModel {
            name: self.name@,
            is_dir: self.is_dir,
            compressed_size: self.compressed_size,
            uncompressed_size: self.uncompressed_size,
            data: self.data@,
        }
    }
}

impl DeepView for ArchiveEntry {
    type V = EntryModel;

    open spec fn deep_view(&self) -> EntryModel {
        self.view()
    }
}

#[verifier::external_type_specification]
#[verifier::external_body]
#[verifier::reject_recursive_types(R)]
pub struct ExZipArchive<R>(zip::ZipArchive<R>);

#[verifier::external_type_specification]
#[verifier::external_body]
#[verifier::reject_recursive_types(T)]
pub struct ExCursor<T>(std::io::Cursor<T>);

/// The entry table (with each entry's decompressed content) that the given
/// container bytes describe, in archive order, or `None` when the bytes are
/// not a valid zip container.
pub uninterp spec fn zip_entries_of(data: Seq<u8>) -> Option<Seq<EntryModel>>;

/// What an open archive holds, entry by entry, in archive order.
pub uninterp spec fn archive_contents(a: zip::ZipArchive<std::io::Cursor<Vec<u8>>>) -> Seq<EntryModel>;

/// Relies on `zip::ZipArchive::new`: it reads the central directory of the
/// given bytes, so success and the resulting entry table are a function of
/// those bytes alone.
#[verifier::external_body]
fn open_archive(data: &Vec<u8>) -> (r: Option<zip::ZipArchive<std::io::Cursor<Vec<u8>>>>)
    ensures
        r is Some <==> zip_entries_of(data@) is Some,
        r matches Some(a) ==> zip_entries_of(data@) matches Some(es) && archive_contents(a) == es,
{
    zip::ZipArchive::new(std::io::Cursor::new(data.clone())).ok()
}

/// Relies on `zip::ZipArchive::len`: the number of files in the archive.
#[verifier::external_body]
fn archive_len(a: &zip::ZipArchive<std::io::Cursor<Vec<u8>>>) -> (n: usize)
    ensures
        n == archive_contents(*a).len(),
{
    a.len()
}

/// Relies on `zip::ZipArchive::by_index` and the entry accessors `name`,
/// `is_dir`, `compressed_size` and `size`, and on `Read::read_to_end` for the
/// decompressed content; reading moves only the underlying cursor, so the
/// entry table is unchanged. Decompression of a stored entry can fail, so
/// nothing is promised about when `None` comes back.
#[verifier::external_body]
fn read_entry(a: &mut zip::ZipArchive<std::io::Cursor<Vec<u8>>>, i: usize) -> (r: Option<
    ArchiveEntry,
>)
    requires
        i < archive_contents(*old(a)).len(),
    ensures
        archive_contents(*final(a)) == archive_contents(*old(a)),
        r matches Some(e) ==> e@ == archive_contents(*old(a))[i as int],
{
    let mut f = a.by_index(i).ok()?;
    let name = f.name().as_bytes().to_vec();
    let is_dir = f.is_dir();
    let compressed_size = f.compressed_size();
    let uncompressed_size = f.size();
    let mut data = Vec::new();
    std::io::Read::read_to_end(&mut f, &mut data).ok()?;
    Some(ArchiveEntry { name, is_dir, compressed_size, uncompressed_size, data })
}

/// Why reading an archive failed.
#[derive(Debug)]
pub enum ArchiveError {
    /// The bytes are not a valid zip container.
    NotAnArchive,
    /// The entry at this index could not be read or decompressed.
    EntryRead { index: usize },
}

/// Opens the container bytes and reads every entry, in archive order.
pub fn read_archive_entries(data: &Vec<u8>) -> (r: Result<Vec<ArchiveEntry>, ArchiveError>)
    ensures
        r matches Err(ArchiveError::NotAnArchive) <==> zip_entries_of(data@) is None,
        r matches Ok(v) ==> zip_entries_of(data@) matches Some(es) && v.deep_view() == es,
        r matches Err(ArchiveError::EntryRead { index }) ==> zip_entries_of(data@) matches Some(es)
            && index < es.len(),
{
    let mut a = match open_archive(data) {
        None => {
            return Err(ArchiveError::NotAnArchive);
        },
        Some(a) => a,
    };
    let ghost es = archive_contents(a);
    let n = archive_len(&a);
    let mut out: Vec<ArchiveEntry> = Vec::new();
    let mut i: usize = 0;
    while i < n
        invariant
            archive_contents(a) == es,
            zip_entries_of(data@) == Some(es),
            n == es.len(),
            i <= n,
            out.deep_view() =~~= es.take(i as int),
        decreases n - i,
    {
        let ghost old_out = out.deep_view();
        match read_entry(&mut a, i) {
            None => {
                return Err(ArchiveError::EntryRead { index: i });
            },
            Some(e) => {
                out.push(e);
                proof {
                    assert(out.deep_view() =~~= old_out.push(es[i as int]));
                    assert(out.deep_view() =~~= es.take(i + 1 as int));
                }
            },
        }
        i += 1;
    }
    proof {
        assert(es.take(n as int) =~= es);
    }
    Ok(out)
}

} // verus!
