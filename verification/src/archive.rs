//! The container stream: an ordered sequence of named byte entries. The tar
//! format carries the entries; an optional zlib transform wraps the whole
//! stream. Both formats are handled by outside crates behind trusted
//! wrappers; everything above the byte level is verified against the names
//! `tar_stream`, `tar_parse`, `deflated` and `inflated`.

use vstd::prelude::*;
use crate::Compression;

verus! {

broadcast use vstd::seq::group_seq_axioms, vstd::std_specs::vec::group_vec_axioms;

/// One named byte entry of a container stream.
#[derive(Debug, PartialEq, Eq)]
pub struct ArchiveEntry {
    pub name: String,
    pub data: Vec<u8>,
}

impl View for ArchiveEntry {
    type V = (Seq<char>, Seq<u8>);

    open spec fn view(&self) -> (Seq<char>, Seq<u8>) {
        (self.name@, self.data@)
    }
}

/// The mathematical value of an entry list.
pub open spec fn entries_v(es: Seq<ArchiveEntry>) -> Seq<(Seq<char>, Seq<u8>)> {
    es.map_values(|e: ArchiveEntry| (e.name@, e.data@))
}

/// True when a `.` or `..` path component starts at position `i` of a name.
pub open spec fn dot_component_at(name: Seq<char>, i: int) -> bool {
    &&& 0 <= i < name.len()
    &&& (i == 0 || name[i - 1] == '/')
    &&& name[i] == '.'
    &&& (i + 1 == name.len() || name[i + 1] == '/' || (name[i + 1] == '.' && (i + 2
        == name.len() || name[i + 2] == '/')))
}

/// A name the tar format stores verbatim: non-empty, relative, free of nul
/// characters, with no empty, `.` or `..` path components. The format's own
/// writer silently drops `.` components and repeated or trailing
/// separators, so only such names survive a write and read unchanged.
pub open spec fn tar_name_ok(name: Seq<char>) -> bool {
    &&& 0 < name.len()
    &&& name[0] != '/'
    &&& name[name.len() - 1] != '/'
    &&& (forall|i: int| 0 <= i < name.len() ==> (#[trigger] name[i]) != '\0')
    &&& (forall|i: int| 0 < i < name.len() ==> !((#[trigger] name[i]) == '/' && name[i - 1] == '/'))
    &&& (forall|i: int| !dot_component_at(name, i))
}

/// Checks whether the tar format stores a name verbatim (see
/// [`tar_name_ok`]).
pub fn tar_name_admissible(name: &str) -> (r: bool)
    ensures
        r == tar_name_ok(name@),
{
    let n = name.unicode_len();
    if n == 0 {
        return false;
    }
    if name.get_char(0) == '/' {
        return false;
    }
    if name.get_char(n - 1) == '/' {
        return false;
    }
    let mut i: usize = 0;
    while i < n
        invariant
            n == name@.len(),
            0 < n,
            name@[0] != '/',
            name@[n - 1] != '/',
            i <= n,
            forall|j: int| 0 <= j < i ==> (#[trigger] name@[j]) != '\0',
            forall|j: int| 0 < j < i ==> !((#[trigger] name@[j]) == '/' && name@[j - 1] == '/'),
            forall|j: int| j < i ==> !dot_component_at(name@, j),
        decreases n - i,
    {
        let c = name.get_char(i);
        if c == '\0' {
            return false;
        }
        if i > 0 && c == '/' && name.get_char(i - 1) == '/' {
            return false;
        }
        if c == '.' && (i == 0 || name.get_char(i - 1) == '/') {
            if i + 1 == n {
                proof {
                    assert(dot_component_at(name@, i as int));
                }
                return false;
            }
            let c1 = name.get_char(i + 1);
            if c1 == '/' {
                proof {
                    assert(dot_component_at(name@, i as int));
                }
                return false;
            }
            if c1 == '.' {
                if i + 2 == n {
                    proof {
                        assert(dot_component_at(name@, i as int));
                    }
                    return false;
                }
                if name.get_char(i + 2) == '/' {
                    proof {
                        assert(dot_component_at(name@, i as int));
                    }
                    return false;
                }
            }
        }
        i = i + 1;
        proof {
            assert forall|j: int| j < i implies !dot_component_at(name@, j) by {
                if j == i - 1 {
                    assert(!dot_component_at(name@, j));
                }
            }
        }
    }
    proof {
        assert(tar_name_ok(name@));
    }
    true
}

/// Whether the tar builder accepts an entry under this name: for a builder
/// over an in-memory buffer this depends on the name alone.
pub uninterp spec fn appendable(name: Seq<char>) -> bool;

/// A container stream under construction: the tar builder of the outside
/// crate, writing into an in-memory buffer. Verus sees the value only
/// through [`tar_builder_entries`].
#[verifier::external_body]
pub(crate) struct StreamBuilder {
    inner: tar::Builder<Vec<u8>>,
}

/// The entries appended to a stream builder so far.
pub uninterp spec fn tar_builder_entries(b: StreamBuilder) -> Seq<(Seq<char>, Seq<u8>)>;

/// The tar byte stream that carries an entry list.
pub uninterp spec fn tar_stream(entries: Seq<(Seq<char>, Seq<u8>)>) -> Seq<u8>;

/// What reading a byte stream as tar yields: the entries read in order, and
/// the count of entries that could not be read.
pub uninterp spec fn tar_parse(bytes: Seq<u8>) -> (Seq<(Seq<char>, Seq<u8>)>, nat);

/// Relies on `tar::Builder::new`: a fresh builder over an in-memory buffer
/// holds no entries.
#[verifier::external_body]
pub(crate) fn tar_builder_new() -> (b: StreamBuilder)
    ensures
        tar_builder_entries(b) == Seq::<(Seq<char>, Seq<u8>)>::empty(),
{
    StreamBuilder { inner: tar::Builder::new(Vec::new()) }
}

/// Relies on `tar::Builder::append_data` with a GNU header carrying the
/// data length: on success, one named entry is appended. Only names the
/// format stores verbatim are admitted (see [`tar_name_ok`]); for those,
/// acceptance depends on the name alone.
#[verifier::external_body]
pub(crate) fn tar_builder_append(b: &mut StreamBuilder, name: &str, data: &[u8]) -> (ok: bool)
    requires
        tar_name_ok(name@),
    ensures
        ok == appendable(name@),
        ok ==> tar_builder_entries(*final(b)) == tar_builder_entries(*old(b)).push(
            (name@, data@),
        ),
{
    let mut header = tar::Header::new_gnu();
    header.set_size(data.len() as u64);
    header.set_cksum();
    b.inner.append_data(&mut header, name, data).is_ok()
}

/// Relies on `tar::Builder::into_inner` and `tar::Archive`: finishing a
/// builder over an in-memory buffer succeeds and yields the byte stream of
/// the appended entries; when every appended name is one the format stores
/// verbatim, reading the stream back yields exactly those entries, with no
/// read errors.
#[verifier::external_body]
pub(crate) fn tar_builder_finish(b: StreamBuilder) -> (r: Option<Vec<u8>>)
    ensures
        r is Some,
        r matches Some(bytes) ==> bytes@ == tar_stream(tar_builder_entries(b)) && ((forall|i: int|
            0 <= i < tar_builder_entries(b).len() ==> tar_name_ok(
                (#[trigger] tar_builder_entries(b)[i]).0,
            )) ==> tar_parse(bytes@).0 == tar_builder_entries(b) && tar_parse(bytes@).1 == 0),
{
    b.inner.into_inner().ok()
}

/// Relies on `tar::Archive::entries`: reads the named entries of a tar
/// stream in order; an entry that cannot be read, or whose name is not
/// UTF-8, is counted and skipped.
#[verifier::external_body]
pub(crate) fn tar_extract(bytes: &[u8]) -> (r: (Vec<ArchiveEntry>, usize))
    ensures
        entries_v(r.0@) == tar_parse(bytes@).0,
        r.1 as nat == tar_parse(bytes@).1,
{
    let mut ar = tar::Archive::new(bytes);
    let mut out: Vec<ArchiveEntry> = Vec::new();
    let mut errs: usize = 0;
    let entries = match ar.entries() { Ok(e) => e, Err(_) => return (out, 1) };
    for e in entries {
        let r = e.and_then(|mut en| {
            let p = en.path()?.into_owned();
            let name = p.to_str().ok_or_else(|| std::io::Error::other("name"))?.to_string();
            let mut data = Vec::new();
            std::io::Read::read_to_end(&mut en, &mut data)?;
            Ok(ArchiveEntry { name, data })
        });
        match r { Ok(a) => out.push(a), Err(_) => errs = errs + 1 }
    }
    (out, errs)
}

/// The zlib stream that carries a byte sequence, with the encoder's fixed
/// default settings.
pub uninterp spec fn deflated(bytes: Seq<u8>) -> Seq<u8>;

/// What decompressing a byte sequence as zlib yields, if it is a
/// well-formed stream.
pub uninterp spec fn inflated(bytes: Seq<u8>) -> Option<Seq<u8>>;

/// Relies on libflate's `zlib::Encoder`: compressing into an in-memory
/// buffer succeeds, and the paired decoder decompresses the output back to
/// the input.
#[verifier::external_body]
pub(crate) fn zlib_compress(data: &[u8]) -> (r: Option<Vec<u8>>)
    ensures
        r is Some,
        r matches Some(out) ==> out@ == deflated(data@) && inflated(out@) == Some(data@),
{
    let mut enc = match libflate::zlib::Encoder::new(Vec::new()) {
        Ok(e) => e,
        Err(_) => return None,
    };
    if std::io::Write::write_all(&mut enc, data).is_err() {
        return None;
    }
    enc.finish().into_result().ok()
}

/// Relies on libflate's `zlib::Decoder`: decompresses a zlib stream,
/// failing exactly on input it cannot decode.
#[verifier::external_body]
pub(crate) fn zlib_decompress(data: &[u8]) -> (r: Option<Vec<u8>>)
    ensures
        match r {
            Some(out) => inflated(data@) == Some(out@),
            None => inflated(data@) is None,
        },
{
    let mut dec = match libflate::zlib::Decoder::new(data) {
        Ok(d) => d,
        Err(_) => return None,
    };
    let mut out = Vec::new();
    match std::io::Read::read_to_end(&mut dec, &mut out) {
        Ok(_) => Some(out),
        Err(_) => None,
    }
}

/// What reading container bytes under a compression choice yields: the
/// entries in order and the count of read errors; a stream that cannot be
/// decompressed at all counts as one error with no entries.
pub open spec fn container_parse(bytes: Seq<u8>, c: Compression) -> (
    Seq<(Seq<char>, Seq<u8>)>,
    nat,
) {
    match c {
        Compression::Plain => tar_parse(bytes),
        Compression::Zlib => match inflated(bytes) {
            Some(t) => tar_parse(t),
            None => (Seq::empty(), 1nat),
        },
    }
}

/// Writes an entry list as one container stream under a compression
/// choice. It succeeds exactly when every entry name is one the tar format
/// stores verbatim and accepts, and then reading the result back yields
/// exactly the given entries.
#[verifier::loop_isolation(false)]
pub fn write_container(entries: &Vec<ArchiveEntry>, compression: Compression) -> (r: Option<
    Vec<u8>,
>)
    ensures
        r matches Some(bytes) ==> container_parse(bytes@, compression).0 == entries_v(entries@)
            && container_parse(bytes@, compression).1 == 0,
        r is Some <==> (forall|i: int|
            0 <= i < entries@.len() ==> tar_name_ok((#[trigger] entries@[i]).name@)
                && appendable(entries@[i].name@)),
{
    let mut k: usize = 0;
    while k < entries.len()
        invariant
            k <= entries@.len(),
            forall|j: int| 0 <= j < k ==> tar_name_ok((#[trigger] entries@[j]).name@),
        decreases entries@.len() - k,
    {
        if !tar_name_admissible(entries[k].name.as_str()) {
            return None;
        }
        k = k + 1;
    }
    let mut b = tar_builder_new();
    let mut i: usize = 0;
    proof {
        assert(entries_v(entries@.take(0)) =~= Seq::<(Seq<char>, Seq<u8>)>::empty());
    }
    while i < entries.len()
        invariant
            i <= entries@.len(),
            tar_builder_entries(b) == entries_v(entries@.take(i as int)),
            forall|j: int| 0 <= j < i ==> appendable((#[trigger] entries@[j]).name@),
        decreases entries@.len() - i,
    {
        let e = &entries[i];
        let ok = tar_builder_append(&mut b, e.name.as_str(), e.data.as_slice());
        if !ok {
            return None;
        }
        i = i + 1;
        proof {
            assert(entries_v(entries@.take(i as int)) =~= entries_v(
                entries@.take(i - 1),
            ).push((entries@[i - 1].name@, entries@[i - 1].data@)));
        }
    }
    proof {
        assert(entries@.take(entries@.len() as int) =~= entries@);
        assert(entries_v(entries@.take(entries@.len() as int)) =~= entries_v(entries@));
        assert forall|j: int|
            0 <= j < entries_v(entries@).len() implies tar_name_ok(
            (#[trigger] entries_v(entries@)[j]).0,
        ) by {
            assert(entries_v(entries@)[j] == (entries@[j].name@, entries@[j].data@));
        }
    }
    let plain = match tar_builder_finish(b) {
        Some(bytes) => bytes,
        None => {
            proof {
                assert(false);
            }
            return None;
        },
    };
    match compression {
        Compression::Plain => Some(plain),
        Compression::Zlib => {
            let out = zlib_compress(plain.as_slice());
            proof {
                assert(out is Some);
            }
            out
        },
    }
}

/// Reads container bytes back into an entry list and an error count (see
/// [`container_parse`]).
pub fn read_container(bytes: &[u8], compression: Compression) -> (r: (Vec<ArchiveEntry>, usize))
    ensures
        entries_v(r.0@) == container_parse(bytes@, compression).0,
        r.1 as nat == container_parse(bytes@, compression).1,
{
    match compression {
        Compression::Plain => tar_extract(bytes),
        Compression::Zlib => match zlib_decompress(bytes) {
            Some(t) => tar_extract(t.as_slice()),
            None => {
                let out: Vec<ArchiveEntry> = Vec::new();
                proof {
                    assert(entries_v(out@) =~= Seq::<(Seq<char>, Seq<u8>)>::empty());
                }
                (out, 1)
            },
        },
    }
}

/// The data of the first entry with a given name, if any.
pub open spec fn find_entry(es: Seq<(Seq<char>, Seq<u8>)>, name: Seq<char>) -> Option<Seq<u8>>
    decreases es.len(),
{
    if es.len() == 0 {
        None
    } else if es[0].0 == name {
        Some(es[0].1)
    } else {
        find_entry(es.drop_first(), name)
    }
}

/// Finds the first entry with a given name, returning a copy of its data:
/// the read-only lookup used to preview one stream entry.
pub fn unpack_selective(entries: &Vec<ArchiveEntry>, name: &str) -> (r: Option<Vec<u8>>)
    ensures
        match r {
            Some(d) => find_entry(entries_v(entries@), name@) == Some(d@),
            None => find_entry(entries_v(entries@), name@) is None,
        },
{
    let mut i: usize = 0;
    proof {
        assert(entries_v(entries@).skip(0) =~= entries_v(entries@));
    }
    while i < entries.len()
        invariant
            i <= entries@.len(),
            entries_v(entries@).len() == entries@.len(),
            forall|j: int| 0 <= j < entries@.len() ==> #[trigger] entries_v(entries@)[j] == (
                entries@[j].name@,
                entries@[j].data@,
            ),
            find_entry(entries_v(entries@), name@) == find_entry(
                entries_v(entries@).skip(i as int),
                name@,
            ),
        decreases entries@.len() - i,
    {
        let ghost tail = entries_v(entries@).skip(i as int);
        if crate::str_eq(entries[i].name.as_str(), name) {
            proof {
                assert(tail[0] == entries_v(entries@)[i as int]);
            }
            return Some(crate::compile::copy_bytes(&entries[i].data));
        }
        i = i + 1;
        proof {
            assert(tail[0] == entries_v(entries@)[i - 1]);
            assert(tail.drop_first() =~= entries_v(entries@).skip(i as int));
        }
    }
    proof {
        assert(entries_v(entries@).skip(entries@.len() as int) =~= Seq::<
            (Seq<char>, Seq<u8>),
        >::empty());
    }
    None
}

} // verus!
