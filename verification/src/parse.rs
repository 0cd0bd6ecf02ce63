//! Parsing of the file header, footer and index from a byte image, with the
//! spec-level parsers that the executable parsers are proved against.

use vstd::prelude::*;

use crate::bytes::{copy_range, magic_matches, magic_to_vec, read_u16, read_u32, read_u64, u16_at,
    u32_at, u64_at};
use crate::constants::{FOOTER_MAGIC, FOOTER_SIZE, HEADER_PREFIX_SIZE, INDEX_ENTRY_SIZE,
    INDEX_MAGIC, MAGIC};
use crate::error::PltxError;
use crate::format::{FileHeader, HeaderView, IndexEntry, SignalMetadata, SignalMetadataView,
    sig_views};

verus! {

broadcast use vstd::std_specs::vec::group_vec_axioms;

/// What decoding bytes as UTF-8 yields, if they are valid UTF-8. Named and
/// left uninterpreted: the decoding itself is done by the standard library.
pub uninterp spec fn utf8_of(s: Seq<u8>) -> Option<Seq<char>>;

/// Relies on `String::from_utf8`: it succeeds exactly on valid UTF-8 and
/// then yields the decoded characters; the outcome depends on the bytes
/// alone.
#[verifier::external_body]
fn string_from_bytes(b: Vec<u8>) -> (r: Option<String>)
    ensures
        r is Some <==> utf8_of(b@) is Some,
        r is Some ==> r->0@ == utf8_of(b@)->Some_0,
{
    match String::from_utf8(b) {
        Ok(s) => Some(s),
        Err(_) => None,
    }
}

/// Outcome of parsing one length-prefixed string.
pub enum StringOutcome {
    /// The decoded characters and the position just past the string.
    Got(Seq<char>, int),
    /// The two-byte length itself does not fit in the image.
    Short,
    /// The declared length runs past the end of the image.
    Oversize,
    /// The bytes are not valid UTF-8.
    BadUtf8,
}

/// A length-prefixed string at `pos`: a little-endian u16 length, then that
/// many bytes of UTF-8.
pub open spec fn spec_string_at(d: Seq<u8>, pos: int) -> StringOutcome {
    if pos + 2 > d.len() {
        StringOutcome::Short
    } else {
        let n = u16_at(d, pos) as int;
        if pos + 2 + n > d.len() {
            StringOutcome::Oversize
        } else {
            match utf8_of(d.subrange(pos + 2, pos + 2 + n)) {
                Some(s) => StringOutcome::Got(s, pos + 2 + n),
                None => StringOutcome::BadUtf8,
            }
        }
    }
}

/// Outcome of parsing one signal entry: id, then four length-prefixed
/// strings.
pub enum SigOutcome {
    Got(u32, SignalMetadataView, int),
    Short,
    Oversize,
    BadUtf8,
}

/// One signal entry at `pos`: u32 signal id, then name, unit, description
/// and source strings.
pub open spec fn spec_signal_at(d: Seq<u8>, pos: int) -> SigOutcome {
    if pos + 4 > d.len() {
        SigOutcome::Short
    } else {
        let id = u32_at(d, pos) as u32;
        match spec_string_at(d, pos + 4) {
            StringOutcome::Short => SigOutcome::Short,
            StringOutcome::Oversize => SigOutcome::Oversize,
            StringOutcome::BadUtf8 => SigOutcome::BadUtf8,
            StringOutcome::Got(name, p1) => match spec_string_at(d, p1) {
                StringOutcome::Short => SigOutcome::Short,
                StringOutcome::Oversize => SigOutcome::Oversize,
                StringOutcome::BadUtf8 => SigOutcome::BadUtf8,
                StringOutcome::Got(unit, p2) => match spec_string_at(d, p2) {
                    StringOutcome::Short => SigOutcome::Short,
                    StringOutcome::Oversize => SigOutcome::Oversize,
                    StringOutcome::BadUtf8 => SigOutcome::BadUtf8,
                    StringOutcome::Got(description, p3) => match spec_string_at(d, p3) {
                        StringOutcome::Short => SigOutcome::Short,
                        StringOutcome::Oversize => SigOutcome::Oversize,
                        StringOutcome::BadUtf8 => SigOutcome::BadUtf8,
                        StringOutcome::Got(source, p4) => SigOutcome::Got(
                            id,
                            SignalMetadataView { name, unit, description, source },
                            p4,
                        ),
                    },
                },
            },
        }
    }
}

/// Signal ids strictly ascending: sorted and free of duplicates.
pub open spec fn sig_ids_sorted(s: Seq<(u32, SignalMetadataView)>) -> bool {
    forall|i: int, j: int| 0 <= i < j < s.len() ==> s[i].0 < s[j].0
}

/// Insertion into a signal table sorted by ascending id; an entry with the
/// same id is replaced, so that a duplicate id in the header wins last.
pub open spec fn assoc_set(
    s: Seq<(u32, SignalMetadataView)>,
    id: u32,
    m: SignalMetadataView,
) -> Seq<(u32, SignalMetadataView)>
    decreases s.len(),
{
    if s.len() == 0 {
        seq![(id, m)]
    } else if id < s[0].0 {
        seq![(id, m)] + s
    } else if id == s[0].0 {
        seq![(id, m)] + s.drop_first()
    } else {
        seq![s[0]] + assoc_set(s.drop_first(), id, m)
    }
}

/// Whether the table holds the id.
pub open spec fn assoc_has(s: Seq<(u32, SignalMetadataView)>, id: u32) -> bool {
    exists|i: int| 0 <= i < s.len() && s[i].0 == id
}

/// The metadata stored for the id (meaningful only when `assoc_has`).
pub open spec fn assoc_get(s: Seq<(u32, SignalMetadataView)>, id: u32) -> SignalMetadataView
    decreases s.len(),
{
    if s.len() == 0 {
        arbitrary()
    } else if s[0].0 == id {
        s[0].1
    } else {
        assoc_get(s.drop_first(), id)
    }
}

/// `assoc_set` behaves positionally: with `i` the first position whose id is
/// not below the inserted one, it replaces at `i` on an id match and inserts
/// at `i` otherwise. Sortedness is preserved.
pub proof fn lemma_assoc_set_at(
    s: Seq<(u32, SignalMetadataView)>,
    id: u32,
    m: SignalMetadataView,
    i: int,
)
    requires
        sig_ids_sorted(s),
        0 <= i <= s.len(),
        forall|k: int| 0 <= k < i ==> s[k].0 < id,
        i < s.len() ==> id <= s[i].0,
    ensures
        assoc_set(s, id, m) == if i < s.len() && s[i].0 == id {
            s.update(i, (id, m))
        } else {
            s.insert(i, (id, m))
        },
        sig_ids_sorted(assoc_set(s, id, m)),
    decreases i,
{
    if i == 0 {
        if s.len() == 0 {
            assert(assoc_set(s, id, m) =~= s.insert(0, (id, m)));
        } else if id < s[0].0 {
            assert(assoc_set(s, id, m) =~= s.insert(0, (id, m)));
        } else {
            assert(id == s[0].0);
            assert(assoc_set(s, id, m) =~= s.update(0, (id, m)));
        }
    } else {
        let t = s.drop_first();
        assert(sig_ids_sorted(t)) by {
            assert(forall|p: int, q: int|
                0 <= p < q < t.len() ==> t[p].0 == s[p + 1].0 && t[q].0 == s[q + 1].0);
        }
        assert(s[0].0 < id);
        assert(forall|k: int| 0 <= k < i - 1 ==> t[k].0 == s[k + 1].0 && t[k].0 < id);
        assert(i - 1 < t.len() ==> id <= t[i - 1].0);
        lemma_assoc_set_at(t, id, m, i - 1);
        if i < s.len() && s[i].0 == id {
            assert(assoc_set(s, id, m) =~= s.update(i, (id, m))) by {
                assert(assoc_set(s, id, m) == seq![s[0]] + assoc_set(t, id, m));
                assert(assoc_set(t, id, m) == t.update(i - 1, (id, m)));
            }
        } else {
            assert(assoc_set(s, id, m) =~= s.insert(i, (id, m))) by {
                assert(assoc_set(s, id, m) == seq![s[0]] + assoc_set(t, id, m));
                assert(assoc_set(t, id, m) == t.insert(i - 1, (id, m)));
            }
        }
    }
    // Sortedness of the positional form.
    let r = assoc_set(s, id, m);
    if i < s.len() && s[i].0 == id {
        assert forall|p: int, q: int| 0 <= p < q < r.len() implies r[p].0 < r[q].0 by {
            assert(r =~= s.update(i, (id, m)));
        }
    } else {
        assert forall|p: int, q: int| 0 <= p < q < r.len() implies r[p].0 < r[q].0 by {
            assert(r =~= s.insert(i, (id, m)));
            assert(i < s.len() ==> id < s[i].0);
        }
    }
}

/// Outcome of parsing a run of signal entries.
pub enum SignalsOutcome {
    Got(Seq<(u32, SignalMetadataView)>, int),
    Short,
    Oversize,
    BadUtf8,
}

/// Parses `n` signal entries starting at `pos`, folding each into the sorted
/// table `acc`.
pub open spec fn spec_signals_from(
    d: Seq<u8>,
    pos: int,
    n: nat,
    acc: Seq<(u32, SignalMetadataView)>,
) -> SignalsOutcome
    decreases n,
{
    if n == 0 {
        SignalsOutcome::Got(acc, pos)
    } else {
        match spec_signal_at(d, pos) {
            SigOutcome::Short => SignalsOutcome::Short,
            SigOutcome::Oversize => SignalsOutcome::Oversize,
            SigOutcome::BadUtf8 => SignalsOutcome::BadUtf8,
            SigOutcome::Got(id, m, p2) => spec_signals_from(
                d,
                p2,
                (n - 1) as nat,
                assoc_set(acc, id, m),
            ),
        }
    }
}

/// Outcome of parsing the file header.
pub enum HeaderOutcome {
    Got(HeaderView, int),
    Short,
    Oversize,
    BadUtf8,
    BadMagic(Seq<u8>),
}

/// The file header: the 16-byte prefix at offset 0, then `signal_count`
/// signal entries.
pub open spec fn spec_header(d: Seq<u8>) -> HeaderOutcome {
    if d.len() < HEADER_PREFIX_SIZE {
        HeaderOutcome::Short
    } else if d.subrange(0, 4) != MAGIC@ {
        HeaderOutcome::BadMagic(d.subrange(0, 4))
    } else {
        match spec_signals_from(d, 16, u16_at(d, 14), Seq::empty()) {
            SignalsOutcome::Short => HeaderOutcome::Short,
            SignalsOutcome::Oversize => HeaderOutcome::Oversize,
            SignalsOutcome::BadUtf8 => HeaderOutcome::BadUtf8,
            SignalsOutcome::Got(signals, end) => HeaderOutcome::Got(
                HeaderView {
                    version: d[4],
                    compression: d[5],
                    created: u64_at(d, 6) as u64,
                    signals,
                },
                end,
            ),
        }
    }
}

/// How a string parse result corresponds to its spec outcome.
pub open spec fn string_result_matches(
    d: Seq<u8>,
    pos: int,
    r: Result<(String, usize), PltxError>,
) -> bool {
    match spec_string_at(d, pos) {
        StringOutcome::Got(s, end) => r is Ok && r->Ok_0.0@ == s && r->Ok_0.1 == end,
        StringOutcome::Short => r is Err && r->Err_0 is Io,
        StringOutcome::Oversize => r is Err && r->Err_0 is CorruptedData,
        StringOutcome::BadUtf8 => r is Err && r->Err_0 == PltxError::InvalidUtf8,
    }
}

/// Parses one length-prefixed string at `pos`, returning it together with
/// the position just past it. A truncated length field is a short read; a
/// declared length past the end of the image is corrupted data.
pub fn parse_string(d: &Vec<u8>, pos: usize) -> (r: Result<(String, usize), PltxError>)
    ensures
        string_result_matches(d@, pos as int, r),
        r is Ok ==> pos < r->Ok_0.1 <= d@.len(),
{
    let len = d.len();
    if len < 2 || pos > len - 2 {
        return Err(PltxError::Io("short read in string length".to_owned()));
    }
    let n = read_u16(d, pos) as usize;
    if n > len - (pos + 2) {
        return Err(PltxError::CorruptedData("string length runs past end of file".to_owned()));
    }
    let bytes = copy_range(d, pos + 2, n);
    match string_from_bytes(bytes) {
        Some(s) => Ok((s, pos + 2 + n)),
        None => Err(PltxError::InvalidUtf8),
    }
}

/// How a signal entry parse result corresponds to its spec outcome.
pub open spec fn signal_result_matches(
    d: Seq<u8>,
    pos: int,
    r: Result<(u32, SignalMetadata, usize), PltxError>,
) -> bool {
    match spec_signal_at(d, pos) {
        SigOutcome::Got(id, m, end) => r is Ok && r->Ok_0.0 == id && r->Ok_0.1@ == m && r->Ok_0.2
            == end,
        SigOutcome::Short => r is Err && r->Err_0 is Io,
        SigOutcome::Oversize => r is Err && r->Err_0 is CorruptedData,
        SigOutcome::BadUtf8 => r is Err && r->Err_0 == PltxError::InvalidUtf8,
    }
}

/// Parses one signal entry at `pos`: the signal id and its four metadata
/// strings.
pub fn parse_signal(d: &Vec<u8>, pos: usize) -> (r: Result<(u32, SignalMetadata, usize), PltxError>)
    ensures
        signal_result_matches(d@, pos as int, r),
        r is Ok ==> pos < r->Ok_0.2 <= d@.len(),
{
    let len = d.len();
    if len < 4 || pos > len - 4 {
        return Err(PltxError::Io("short read in signal id".to_owned()));
    }
    let id = read_u32(d, pos);
    let (name, p1) = parse_string(d, pos + 4)?;
    let (unit, p2) = parse_string(d, p1)?;
    let (description, p3) = parse_string(d, p2)?;
    let (source, p4) = parse_string(d, p3)?;
    Ok((id, SignalMetadata { name, unit, description, source }, p4))
}

/// Inserts one signal into the table sorted by ascending id, replacing any
/// entry that already carries the id.
pub fn insert_signal(signals: &mut Vec<(u32, SignalMetadata)>, id: u32, m: SignalMetadata)
    requires
        sig_ids_sorted(sig_views(old(signals)@)),
    ensures
        sig_views(final(signals)@) == assoc_set(sig_views(old(signals)@), id, m@),
        sig_ids_sorted(sig_views(final(signals)@)),
{
    let ghost s0 = sig_views(signals@);
    let ghost mv = m@;
    let n = signals.len();
    let mut i: usize = 0;
    while i < n && signals[i].0 < id
        invariant
            n == signals.len(),
            i <= n,
            forall|k: int| 0 <= k < i ==> sig_views(signals@)[k].0 < id,
        decreases n - i,
    {
        i = i + 1;
    }
    proof {
        lemma_assoc_set_at(s0, id, mv, i as int);
    }
    if i < n && signals[i].0 == id {
        signals.remove(i);
        signals.insert(i, (id, m));
        proof {
            assert(sig_views(signals@) =~= s0.update(i as int, (id, mv)));
        }
    } else {
        signals.insert(i, (id, m));
        proof {
            assert(sig_views(signals@) =~= s0.insert(i as int, (id, mv)));
        }
    }
}

/// How a header parse result corresponds to its spec outcome.
pub open spec fn header_result_matches(d: Seq<u8>, r: Result<FileHeader, PltxError>) -> bool {
    match spec_header(d) {
        HeaderOutcome::Got(h, end) => r is Ok && r->Ok_0@ == h,
        HeaderOutcome::Short => r is Err && r->Err_0 is Io,
        HeaderOutcome::Oversize => r is Err && r->Err_0 is CorruptedData,
        HeaderOutcome::BadUtf8 => r is Err && r->Err_0 == PltxError::InvalidUtf8,
        HeaderOutcome::BadMagic(g) => r is Err && (r->Err_0 matches PltxError::InvalidMagic {
            expected,
            got,
        } && expected@ == MAGIC@ && got@ == g),
    }
}

/// Parses the file header: verifies the file magic, reads the preamble
/// fields, then folds every signal entry into a table sorted by ascending
/// signal id, a later duplicate id replacing an earlier one.
pub fn read_header(d: &Vec<u8>) -> (r: Result<FileHeader, PltxError>)
    ensures
        header_result_matches(d@, r),
        r is Ok ==> sig_ids_sorted(r->Ok_0@.signals),
{
    let len = d.len();
    if len < HEADER_PREFIX_SIZE {
        return Err(PltxError::Io("short read in header prefix".to_owned()));
    }
    if !magic_matches(d, 0, &MAGIC) {
        return Err(
            PltxError::InvalidMagic { expected: magic_to_vec(&MAGIC), got: copy_range(d, 0, 4) },
        );
    }
    let version = d[4];
    let compression = d[5];
    let created = read_u64(d, 6);
    let sig_count = read_u16(d, 14);
    let mut signals: Vec<(u32, SignalMetadata)> = Vec::new();
    let mut pos: usize = 16;
    let mut i: u16 = 0;
    proof {
        assert(sig_views(signals@) =~= Seq::<(u32, SignalMetadataView)>::empty());
    }
    while i < sig_count
        invariant
            i <= sig_count,
            pos <= d@.len(),
            d@.len() >= 16,
            d@.subrange(0, 4) == MAGIC@,
            version == d@[4],
            compression == d@[5],
            created as nat == u64_at(d@, 6),
            sig_count as nat == u16_at(d@, 14),
            sig_ids_sorted(sig_views(signals@)),
            spec_signals_from(d@, 16, sig_count as nat, Seq::empty()) == spec_signals_from(
                d@,
                pos as int,
                (sig_count - i) as nat,
                sig_views(signals@),
            ),
        decreases sig_count - i,
    {
        let ghost acc = sig_views(signals@);
        match parse_signal(d, pos) {
            Err(e) => {
                return Err(e);
            },
            Ok((id, m, p2)) => {
                proof {
                    assert(spec_signals_from(
                        d@,
                        pos as int,
                        (sig_count - i) as nat,
                        acc,
                    ) == spec_signals_from(d@, p2 as int, (sig_count - i - 1) as nat, assoc_set(
                        acc,
                        id,
                        m@,
                    )));
                }
                insert_signal(&mut signals, id, m);
                pos = p2;
                i = i + 1;
            },
        }
    }
    let h = FileHeader { version, compression, created, signals };
    proof {
        assert(spec_signals_from(d@, 16, sig_count as nat, Seq::empty()) == SignalsOutcome::Got(
            sig_views(h.signals@),
            pos as int,
        ));
    }
    Ok(h)
}

/// The index entry stored at `pos`.
pub open spec fn spec_index_entry_at(d: Seq<u8>, pos: int) -> IndexEntry {
    IndexEntry {
        signal_id: u32_at(d, pos) as u32,
        offset: u64_at(d, pos + 4) as u64,
        min_timestamp: u64_at(d, pos + 12) as u64,
        max_timestamp: u64_at(d, pos + 20) as u64,
    }
}

/// Outcome of parsing the footer and the index section.
pub enum IndexOutcome {
    /// The index entries in their on-disk order.
    Entries(Seq<IndexEntry>),
    Short,
    /// The declared entry count runs past the end of the image.
    Oversize,
    BadFooterMagic(Seq<u8>),
    BadIndexMagic(Seq<u8>),
}

/// The footer (the final 12 bytes) and the index section it points at:
/// index magic, entry count, then that many 28-byte entries.
pub open spec fn spec_footer_index(d: Seq<u8>) -> IndexOutcome {
    if d.len() < FOOTER_SIZE {
        IndexOutcome::Short
    } else {
        let fpos = d.len() - FOOTER_SIZE;
        if d.subrange(fpos, fpos + 4) != FOOTER_MAGIC@ {
            IndexOutcome::BadFooterMagic(d.subrange(fpos, fpos + 4))
        } else {
            let ipos = u64_at(d, fpos + 4) as int;
            if ipos + 4 > d.len() {
                IndexOutcome::Short
            } else if d.subrange(ipos, ipos + 4) != INDEX_MAGIC@ {
                IndexOutcome::BadIndexMagic(d.subrange(ipos, ipos + 4))
            } else if ipos + 8 > d.len() {
                IndexOutcome::Short
            } else {
                let cnt = u32_at(d, ipos + 4) as int;
                if ipos + 8 + cnt * INDEX_ENTRY_SIZE > d.len() {
                    IndexOutcome::Oversize
                } else {
                    IndexOutcome::Entries(
                        Seq::new(
                            cnt as nat,
                            |k: int| spec_index_entry_at(d, ipos + 8 + k * INDEX_ENTRY_SIZE),
                        ),
                    )
                }
            }
        }
    }
}

/// How a footer-and-index parse result corresponds to its spec outcome.
pub open spec fn index_result_matches(d: Seq<u8>, r: Result<Vec<IndexEntry>, PltxError>) -> bool {
    match spec_footer_index(d) {
        IndexOutcome::Entries(es) => r is Ok && r->Ok_0@ == es,
        IndexOutcome::Short => r is Err && r->Err_0 is Io,
        IndexOutcome::Oversize => r is Err && r->Err_0 is CorruptedData,
        IndexOutcome::BadFooterMagic(g) => r is Err && (r->Err_0 matches PltxError::InvalidMagic {
            expected,
            got,
        } && expected@ == FOOTER_MAGIC@ && got@ == g),
        IndexOutcome::BadIndexMagic(g) => r is Err && (r->Err_0 matches PltxError::InvalidMagic {
            expected,
            got,
        } && expected@ == INDEX_MAGIC@ && got@ == g),
    }
}

/// Parses the footer and loads the index: the entries in their on-disk
/// order. The declared entry count is bounded against the remaining file
/// extent before anything is allocated.
pub fn read_footer_and_index(d: &Vec<u8>) -> (r: Result<Vec<IndexEntry>, PltxError>)
    ensures
        index_result_matches(d@, r),
{
    let len = d.len();
    if len < FOOTER_SIZE {
        return Err(PltxError::Io("short read in footer".to_owned()));
    }
    let fpos = len - FOOTER_SIZE;
    if !magic_matches(d, fpos, &FOOTER_MAGIC) {
        return Err(
            PltxError::InvalidMagic {
                expected: magic_to_vec(&FOOTER_MAGIC),
                got: copy_range(d, fpos, 4),
            },
        );
    }
    let index_offset = read_u64(d, fpos + 4);
    let len64 = len as u64;
    if index_offset > len64 - 4 {
        return Err(PltxError::Io("short read in index magic".to_owned()));
    }
    let ipos = index_offset as usize;
    if !magic_matches(d, ipos, &INDEX_MAGIC) {
        return Err(
            PltxError::InvalidMagic {
                expected: magic_to_vec(&INDEX_MAGIC),
                got: copy_range(d, ipos, 4),
            },
        );
    }
    if len - ipos < 8 {
        return Err(PltxError::Io("short read in index entry count".to_owned()));
    }
    let cnt = read_u32(d, ipos + 4) as usize;
    if (cnt as u64) * 28 > len64 - (ipos as u64 + 8) {
        return Err(
            PltxError::CorruptedData("index entry count runs past end of file".to_owned()),
        );
    }
    let ghost entries_spec = Seq::new(
        cnt as nat,
        |k: int| spec_index_entry_at(d@, ipos + 8 + k * INDEX_ENTRY_SIZE),
    );
    let mut entries: Vec<IndexEntry> = Vec::with_capacity(cnt);
    let mut k: usize = 0;
    while k < cnt
        invariant
            k <= cnt,
            len == d@.len(),
            ipos + 8 + cnt * 28 <= len,
            entries@.len() == k,
            forall|j: int| 0 <= j < k ==> entries@[j] == spec_index_entry_at(
                d@,
                ipos + 8 + j * 28,
            ),
        decreases cnt - k,
    {
        let p = ipos + 8 + k * 28;
        let e = IndexEntry {
            signal_id: read_u32(d, p),
            offset: read_u64(d, p + 4),
            min_timestamp: read_u64(d, p + 12),
            max_timestamp: read_u64(d, p + 20),
        };
        entries.push(e);
        k = k + 1;
    }
    proof {
        assert(entries@ =~= entries_spec);
    }
    Ok(entries)
}

/// Outcome of opening a file image: everything `open` can return.
pub enum OpenOutcome {
    Opened(HeaderView, Seq<IndexEntry>),
    Short,
    Oversize,
    BadUtf8,
    BadFileMagic(Seq<u8>),
    BadFooterMagic(Seq<u8>),
    BadIndexMagic(Seq<u8>),
}

/// Opening parses the header first, then the footer and index.
pub open spec fn spec_open(d: Seq<u8>) -> OpenOutcome {
    match spec_header(d) {
        HeaderOutcome::Short => OpenOutcome::Short,
        HeaderOutcome::Oversize => OpenOutcome::Oversize,
        HeaderOutcome::BadUtf8 => OpenOutcome::BadUtf8,
        HeaderOutcome::BadMagic(g) => OpenOutcome::BadFileMagic(g),
        HeaderOutcome::Got(h, end) => match spec_footer_index(d) {
            IndexOutcome::Short => OpenOutcome::Short,
            IndexOutcome::Oversize => OpenOutcome::Oversize,
            IndexOutcome::BadFooterMagic(g) => OpenOutcome::BadFooterMagic(g),
            IndexOutcome::BadIndexMagic(g) => OpenOutcome::BadIndexMagic(g),
            IndexOutcome::Entries(es) => OpenOutcome::Opened(h, es),
        },
    }
}

} // verus!
