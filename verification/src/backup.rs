//! The user-data backup format.
//!
//! A backup is the magic `CFBKP01` followed by entries; an entry is its
//! name's byte length (4 bytes, little-endian), the name in UTF-8, its
//! data's length (8 bytes, little-endian) and the data.
use vstd::prelude::*;
use crate::errors::AppError;
use crate::text::{owned, push_str, str_eq};

verus! {

broadcast use vstd::string::group_string_axioms;

/// Where an export was written and how large it is.
#[derive(Debug)]
pub struct ExportResult {
    pub path: String,
    pub size_bytes: u64,
}

/// Which files an import restored.
#[derive(Debug)]
pub struct ImportResult {
    pub restored_settings: bool,
    pub restored_db: bool,
}

/// One entry of a backup.
#[derive(Debug)]
pub struct BackupEntry {
    pub name: String,
    pub data: Vec<u8>,
}

/// `CFBKP01`: the format's magic and version.
pub open spec fn magic() -> Seq<u8> {
    seq![67u8, 70u8, 66u8, 75u8, 80u8, 48u8, 49u8]
}

/// The bytes of one entry: the name's length is written as a `u32` (so
/// only modulo 2^32), the data's as a `u64`.
pub open spec fn entry_bytes(name: Seq<u8>, data: Seq<u8>) -> Seq<u8> {
    vstd::bytes::spec_u32_to_le_bytes((name.len() % 0x1_0000_0000) as u32) + name
        + vstd::bytes::spec_u64_to_le_bytes(data.len() as u64) + data
}

/// The bytes of the entries `(name, data)`, in order.
pub open spec fn body_bytes(entries: Seq<(Seq<char>, Seq<u8>)>) -> Seq<u8>
    decreases entries.len(),
{
    if entries.len() == 0 {
        Seq::empty()
    } else {
        entry_bytes(vstd::utf8::encode_utf8(entries[0].0), entries[0].1) + body_bytes(
            entries.drop_first(),
        )
    }
}

/// The bytes of a backup holding the entries `(name, data)` in order.
pub open spec fn backup_bytes(entries: Seq<(Seq<char>, Seq<u8>)>) -> Seq<u8> {
    magic() + body_bytes(entries)
}

proof fn lemma_body_push(s: Seq<(Seq<char>, Seq<u8>)>, x: (Seq<char>, Seq<u8>))
    ensures
        body_bytes(s.push(x)) == body_bytes(s) + entry_bytes(vstd::utf8::encode_utf8(x.0), x.1),
    decreases s.len(),
{
    if s.len() == 0 {
        assert(s.push(x).drop_first() =~= Seq::<(Seq<char>, Seq<u8>)>::empty());
        assert(s.push(x)[0] == x);
        assert(body_bytes(Seq::<(Seq<char>, Seq<u8>)>::empty()) =~= Seq::<u8>::empty());
        assert(body_bytes(s.push(x)) =~= entry_bytes(vstd::utf8::encode_utf8(x.0), x.1)
            + Seq::<u8>::empty());
        assert(body_bytes(s) =~= Seq::<u8>::empty());
    } else {
        assert(s.push(x).drop_first() =~= s.drop_first().push(x));
        assert(s.push(x)[0] == s[0]);
        lemma_body_push(s.drop_first(), x);
        assert(body_bytes(s.push(x)) =~= body_bytes(s) + entry_bytes(
            vstd::utf8::encode_utf8(x.0),
            x.1,
        ));
    }
}

fn push_bytes(w: &mut Vec<u8>, s: &[u8])
    ensures
        final(w)@ == old(w)@ + s@,
{
    let mut i: usize = 0;
    while i < s.len()
        invariant
            i <= s@.len(),
            w@ == old(w)@ + s@.take(i as int),
        decreases s@.len() - i,
    {
        w.push(s[i]);
        i = i + 1;
        assert(w@ =~= old(w)@ + s@.take(i as int));
    }
    assert(s@.take(s@.len() as int) =~= s@);
}

/// Appends one entry to `w`.
pub fn write_entry(w: &mut Vec<u8>, name: &str, data: &[u8])
    ensures
        final(w)@ == old(w)@ + entry_bytes(vstd::utf8::encode_utf8(name@), data@),
{
    let name_bytes = name.as_bytes();
    let n64 = name_bytes.len() as u64;
    let n32 = (n64 % 4294967296u64) as u32;
    let len_bytes = vstd::bytes::u32_to_le_bytes(n32);
    push_bytes(w, len_bytes.as_slice());
    push_bytes(w, name_bytes);
    let data_len = vstd::bytes::u64_to_le_bytes(data.len() as u64);
    push_bytes(w, data_len.as_slice());
    push_bytes(w, data);
    proof {
        assert(name_bytes@ == vstd::utf8::encode_utf8(name@));
    }
}

/// The bytes of a whole backup.
pub fn encode_backup(entries: &[BackupEntry]) -> (r: Vec<u8>)
    ensures
        r@ == backup_bytes(entry_views(entries@)),
{
    let mut w: Vec<u8> = Vec::new();
    w.push(67);
    w.push(70);
    w.push(66);
    w.push(75);
    w.push(80);
    w.push(48);
    w.push(49);
    let mut i: usize = 0;
    proof {
        assert(entry_views(entries@).take(0) =~= Seq::<(Seq<char>, Seq<u8>)>::empty());
        assert(w@ =~= backup_bytes(entry_views(entries@).take(0)));
    }
    while i < entries.len()
        invariant
            i <= entries@.len(),
            w@ == backup_bytes(entry_views(entries@).take(i as int)),
        decreases entries@.len() - i,
    {
        write_entry(&mut w, entries[i].name.as_str(), entries[i].data.as_slice());
        proof {
            let t = entry_views(entries@).take(i + 1);
            assert(t =~= entry_views(entries@).take(i as int).push(
                (entries@[i as int].name@, entries@[i as int].data@),
            ));
            lemma_body_push(
                entry_views(entries@).take(i as int),
                (entries@[i as int].name@, entries@[i as int].data@),
            );
        }
        i = i + 1;
    }
    assert(entry_views(entries@).take(entries@.len() as int) =~= entry_views(entries@));
    w
}

pub open spec fn entry_views(s: Seq<BackupEntry>) -> Seq<(Seq<char>, Seq<u8>)> {
    s.map_values(|e: BackupEntry| (e.name@, e.data@))
}

/// The text std's `str::from_utf8` reports for bytes that are not UTF-8
/// (a function of the bytes alone).
pub uninterp spec fn utf8_error_text(bytes: Seq<u8>) -> Seq<char>;

/// std's `str::from_utf8`, the string owned and the error as its text.
/// Claimed: it succeeds exactly on valid UTF-8 and then decodes it; the
/// error's text is only named.
#[verifier::external_body]
fn str_from_utf8(bytes: &[u8]) -> (r: Result<String, String>)
    ensures
        match r {
            Ok(s) => vstd::utf8::valid_utf8(bytes@) && s@ == vstd::utf8::decode_utf8(bytes@),
            Err(e) => !vstd::utf8::valid_utf8(bytes@) && e@ == utf8_error_text(bytes@),
        },
{
    match std::str::from_utf8(bytes) {
        Ok(s) => Ok(s.to_string()),
        Err(e) => Err(e.to_string()),
    }
}

/// Why reading an entry failed.
pub enum EntryError {
    Truncated,
    BadName(Seq<char>),
    DataShort,
}

/// The message of each entry error.
pub open spec fn entry_error_message(e: EntryError) -> Seq<char> {
    match e {
        EntryError::Truncated => "Corrupt backup file (truncated)"@,
        EntryError::BadName(t) => "Bad entry name: "@ + t,
        EntryError::DataShort => "Corrupt backup file (data short)"@,
    }
}

/// Reading the entry at the start of `rest`: nothing when fewer than four
/// bytes are left; otherwise `(name, data, bytes used)` or why the entry is
/// corrupt.
pub open spec fn read_entry(rest: Seq<u8>) -> Result<Option<(Seq<char>, Seq<u8>, int)>, EntryError> {
    if rest.len() < 4 {
        Ok(None)
    } else {
        let name_len = vstd::bytes::spec_u32_from_le_bytes(rest.take(4)) as int;
        let r = rest.skip(4);
        if r.len() < name_len + 8 {
            Err(EntryError::Truncated)
        } else if !vstd::utf8::valid_utf8(r.take(name_len)) {
            Err(EntryError::BadName(utf8_error_text(r.take(name_len))))
        } else {
            let data_len = vstd::bytes::spec_u64_from_le_bytes(r.skip(name_len).take(8)) as int;
            let d = r.skip(name_len + 8);
            if d.len() < data_len {
                Err(EntryError::DataShort)
            } else {
                Ok(
                    Some(
                        (
                            vstd::utf8::decode_utf8(r.take(name_len)),
                            d.take(data_len),
                            4 + name_len + 8 + data_len,
                        ),
                    ),
                )
            }
        }
    }
}

/// The entries of a backup body, or the message of the first corrupt one.
pub open spec fn read_entries(rest: Seq<u8>) -> Result<Seq<(Seq<char>, Seq<u8>)>, Seq<char>>
    decreases rest.len(),
{
    match read_entry(rest) {
        Err(e) => Err(entry_error_message(e)),
        Ok(None) => Ok(Seq::empty()),
        Ok(Some(x)) => if 0 < x.2 <= rest.len() {
            match read_entries(rest.skip(x.2)) {
                Ok(more) => Ok(seq![(x.0, x.1)] + more),
                Err(m) => Err(m),
            }
        } else {
            Ok(Seq::empty())
        },
    }
}

/// What a backup file holds: its entries, or why it is refused.
pub open spec fn parse_backup_spec(bytes: Seq<u8>) -> Result<Seq<(Seq<char>, Seq<u8>)>, Seq<char>> {
    if bytes.len() < 7 || bytes.take(7) != magic() {
        Err("Not a CodeFactory backup file (bad magic)"@)
    } else {
        read_entries(bytes.skip(7))
    }
}

/// Where the entries of a backup start, or the refusal of a file that is
/// not a backup.
pub fn backup_body_start(bytes: &[u8]) -> (r: Result<usize, AppError>)
    ensures
        match r {
            Ok(k) => k == 7 && bytes@.len() >= 7 && bytes@.take(7) == magic(),
            Err(e) => (bytes@.len() < 7 || bytes@.take(7) != magic()) && e.message()
                == "Not a CodeFactory backup file (bad magic)"@,
        },
{
    if bytes.len() >= 7 && bytes[0] == 67 && bytes[1] == 70 && bytes[2] == 66 && bytes[3] == 75
        && bytes[4] == 80 && bytes[5] == 48 && bytes[6] == 49 {
        assert(bytes@.take(7) =~= magic());
        Ok(7)
    } else {
        proof {
            if bytes@.len() >= 7 {
                assert(bytes@.take(7)[0] == bytes@[0]);
                assert(bytes@.take(7)[1] == bytes@[1]);
                assert(bytes@.take(7)[2] == bytes@[2]);
                assert(bytes@.take(7)[3] == bytes@[3]);
                assert(bytes@.take(7)[4] == bytes@[4]);
                assert(bytes@.take(7)[5] == bytes@[5]);
                assert(bytes@.take(7)[6] == bytes@[6]);
            }
        }
        Err(AppError::Other(owned("Not a CodeFactory backup file (bad magic)")))
    }
}

fn sub_bytes(s: &[u8], a: usize, b: usize) -> (r: Vec<u8>)
    requires
        a <= b <= s@.len(),
    ensures
        r@ == s@.subrange(a as int, b as int),
{
    let mut r: Vec<u8> = Vec::new();
    let mut i = a;
    while i < b
        invariant
            a <= i <= b,
            b <= s@.len(),
            r@ == s@.subrange(a as int, i as int),
        decreases b - i,
    {
        r.push(s[i]);
        i = i + 1;
        assert(r@ =~= s@.subrange(a as int, i as int));
    }
    r
}

/// Reads the entry at `pos`: `None` when fewer than four bytes are left,
/// else the entry and the position after it, or the corruption found.
pub fn next_backup_entry(bytes: &[u8], pos: usize) -> (r: Result<Option<(BackupEntry, usize)>, AppError>)
    requires
        pos <= bytes@.len(),
    ensures
        match read_entry(bytes@.skip(pos as int)) {
            Err(e) => r matches Err(m) && m.message() == entry_error_message(e),
            Ok(None) => r matches Ok(None),
            Ok(Some(x)) => r matches Ok(Some(p)) && p.0.name@ == x.0 && p.0.data@ == x.1 && p.1
                == pos + x.2,
        },
{
    let n = bytes.len();
    let ghost rest = bytes@.skip(pos as int);
    if n - pos < 4 {
        return Ok(None);
    }
    let head = sub_bytes(bytes, pos, pos + 4);
    assert(head@ =~= rest.take(4));
    let name_len = vstd::bytes::u32_from_le_bytes(head.as_slice()) as usize;
    let p1 = pos + 4;
    proof {
        assert(rest.skip(4) =~= bytes@.skip(p1 as int));
    }
    if n - p1 < 8 || n - p1 - 8 < name_len {
        return Err(AppError::Other(owned("Corrupt backup file (truncated)")));
    }
    let name_bytes = sub_bytes(bytes, p1, p1 + name_len);
    assert(name_bytes@ =~= rest.skip(4).take(name_len as int));
    let name = match str_from_utf8(name_bytes.as_slice()) {
        Ok(s) => s,
        Err(e) => {
            let mut m = owned("Bad entry name: ");
            push_str(&mut m, e.as_str());
            return Err(AppError::Other(m));
        },
    };
    let p2 = p1 + name_len;
    let len_bytes = sub_bytes(bytes, p2, p2 + 8);
    assert(len_bytes@ =~= rest.skip(4).skip(name_len as int).take(8));
    let data_len = vstd::bytes::u64_from_le_bytes(len_bytes.as_slice());
    let p3 = p2 + 8;
    proof {
        assert(rest.skip(4).skip(name_len + 8) =~= bytes@.skip(p3 as int));
    }
    if ((n - p3) as u64) < data_len {
        return Err(AppError::Other(owned("Corrupt backup file (data short)")));
    }
    let dl = data_len as usize;
    let data = sub_bytes(bytes, p3, p3 + dl);
    assert(data@ =~= bytes@.skip(p3 as int).take(dl as int));
    Ok(Some((BackupEntry { name, data }, p3 + dl)))
}

/// The entries of a backup file, or why it is refused.
pub fn parse_backup(bytes: &[u8]) -> (r: Result<Vec<BackupEntry>, AppError>)
    ensures
        match parse_backup_spec(bytes@) {
            Ok(es) => r matches Ok(v) && entry_views(v@) == es,
            Err(m) => r matches Err(e) && e.message() == m,
        },
{
    let start = match backup_body_start(bytes) {
        Ok(k) => k,
        Err(e) => return Err(e),
    };
    let mut pos = start;
    let mut out: Vec<BackupEntry> = Vec::new();
    proof {
        assert(entry_views(out@) =~= Seq::<(Seq<char>, Seq<u8>)>::empty());
    }
    loop
        invariant
            7 <= pos <= bytes@.len(),
            bytes@.len() >= 7 && bytes@.take(7) == magic(),
            parse_backup_spec(bytes@) == match read_entries(bytes@.skip(pos as int)) {
                Ok(more) => Ok(entry_views(out@) + more),
                Err(m) => Err::<Seq<(Seq<char>, Seq<u8>)>, Seq<char>>(m),
            },
        decreases bytes@.len() - pos,
    {
        let ghost rest = bytes@.skip(pos as int);
        match next_backup_entry(bytes, pos) {
            Err(e) => {
                return Err(e);
            },
            Ok(None) => {
                assert(entry_views(out@) + Seq::<(Seq<char>, Seq<u8>)>::empty() =~= entry_views(
                    out@,
                ));
                return Ok(out);
            },
            Ok(Some((entry, next))) => {
                let ghost before = entry_views(out@);
                proof {
                    assert(bytes@.skip(next as int) =~= rest.skip(next - pos));
                }
                out.push(entry);
                proof {
                    assert(entry_views(out@) =~= before.push((entry.name@, entry.data@)));
                    match read_entries(bytes@.skip(next as int)) {
                        Ok(more) => {
                            assert(entry_views(out@) + more =~= before + (seq![
                                (entry.name@, entry.data@),
                            ] + more));
                        },
                        Err(m) => {},
                    }
                }
                pos = next;
            },
        }
    }
}

/// Records that the entry named `name` was restored.
pub fn mark_restored(result: &mut ImportResult, name: &str)
    ensures
        final(result).restored_settings == (old(result).restored_settings || name@
            == "settings.json"@),
        final(result).restored_db == (old(result).restored_db || name@ == "codefactory.db"@),
{
    if str_eq(name, "settings.json") {
        result.restored_settings = true;
    }
    if str_eq(name, "codefactory.db") {
        result.restored_db = true;
    }
}


/// An entry can be written and read back: its name's UTF-8 fits the
/// 32-bit length field.
pub open spec fn writable(e: (Seq<char>, Seq<u8>)) -> bool {
    vstd::utf8::encode_utf8(e.0).len() < 0x1_0000_0000 && e.1.len() <= u64::MAX
}

proof fn lemma_read_entry_of(name: Seq<char>, data: Seq<u8>, rest: Seq<u8>)
    requires
        writable((name, data)),
    ensures
        read_entry(entry_bytes(vstd::utf8::encode_utf8(name), data) + rest) == Ok::<
            Option<(Seq<char>, Seq<u8>, int)>,
            EntryError,
        >(Some((name, data, entry_bytes(vstd::utf8::encode_utf8(name), data).len() as int))),
{
    broadcast use vstd::utf8::group_utf8_lib;

    vstd::bytes::lemma_auto_spec_u32_to_from_le_bytes();
    vstd::bytes::lemma_auto_spec_u64_to_from_le_bytes();
    let n = vstd::utf8::encode_utf8(name);
    let lb = vstd::bytes::spec_u32_to_le_bytes((n.len() % 0x1_0000_0000) as u32);
    let db = vstd::bytes::spec_u64_to_le_bytes(data.len() as u64);
    let all = entry_bytes(n, data) + rest;
    assert(all =~= lb + (n + (db + (data + rest))));
    assert(all.take(4) =~= lb);
    assert(vstd::bytes::spec_u32_from_le_bytes(all.take(4)) as int == n.len());
    let r = all.skip(4);
    assert(r =~= n + (db + (data + rest)));
    assert(r.take(n.len() as int) =~= n);
    assert(r.skip(n.len() as int).take(8) =~= db);
    assert(vstd::bytes::spec_u64_from_le_bytes(db) as int == data.len());
    assert(r.skip(n.len() as int + 8) =~= data + rest);
    assert((data + rest).take(data.len() as int) =~= data);
}

proof fn lemma_read_body(entries: Seq<(Seq<char>, Seq<u8>)>)
    requires
        forall|i: int| 0 <= i < entries.len() ==> writable(#[trigger] entries[i]),
    ensures
        read_entries(body_bytes(entries)) == Ok::<Seq<(Seq<char>, Seq<u8>)>, Seq<char>>(entries),
    decreases entries.len(),
{
    if entries.len() == 0 {
        assert(read_entry(Seq::<u8>::empty()) == Ok::<
            Option<(Seq<char>, Seq<u8>, int)>,
            EntryError,
        >(None));
        assert(body_bytes(entries) =~= Seq::<u8>::empty());
        assert(read_entries(Seq::<u8>::empty()) == Ok::<Seq<(Seq<char>, Seq<u8>)>, Seq<char>>(
            Seq::empty(),
        ));
        assert(entries =~= Seq::<(Seq<char>, Seq<u8>)>::empty());
    } else {
        let e = entries[0];
        let rest = body_bytes(entries.drop_first());
        let eb = entry_bytes(vstd::utf8::encode_utf8(e.0), e.1);
        vstd::bytes::lemma_auto_spec_u32_to_from_le_bytes();
        vstd::bytes::lemma_auto_spec_u64_to_from_le_bytes();
        assert(eb.len() >= 12);
        assert(body_bytes(entries) == eb + rest);
        assert(writable(entries[0]));
        lemma_read_entry_of(e.0, e.1, rest);
        assert forall|i: int| 0 <= i < entries.drop_first().len() implies writable(
            #[trigger] entries.drop_first()[i],
        ) by {
            assert(entries.drop_first()[i] == entries[i + 1]);
        }
        lemma_read_body(entries.drop_first());
        assert((eb + rest).skip(eb.len() as int) =~= rest);
        assert(read_entry(eb + rest) == Ok::<Option<(Seq<char>, Seq<u8>, int)>, EntryError>(
            Some((e.0, e.1, eb.len() as int)),
        ));
        assert(read_entries(eb + rest) == Ok::<Seq<(Seq<char>, Seq<u8>)>, Seq<char>>(
            seq![(e.0, e.1)] + entries.drop_first(),
        ));
        assert(seq![(e.0, e.1)] + entries.drop_first() =~= entries);
    }
}

/// Reading a backup back gives exactly the entries it was written from,
/// in order, for entries whose names fit the 32-bit length field.
pub proof fn lemma_backup_round_trip(entries: Seq<(Seq<char>, Seq<u8>)>)
    requires
        forall|i: int| 0 <= i < entries.len() ==> writable(#[trigger] entries[i]),
    ensures
        parse_backup_spec(backup_bytes(entries)) == Ok::<Seq<(Seq<char>, Seq<u8>)>, Seq<char>>(
            entries,
        ),
{
    let b = backup_bytes(entries);
    assert(b.take(7) =~= magic());
    assert(b.skip(7) =~= body_bytes(entries));
    lemma_read_body(entries);
}

} // verus!
