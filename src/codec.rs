//! The binary layout of records: each field in declared order, strings and
//! integers in bincode's standard encoding, the level as its upper-case tag,
//! and each optional field behind a one-byte tag (0 absent, 1 present).

use vstd::prelude::*;
use vstd::utf8::encode_utf8;
use crate::config::{
    Level, Metadata, Record, RecordView, NetRecord, NetRecordView, level_tag, opt_view,
};
use crate::text::str_eq;
use vstd::seq_lib::lemma_concat_associative;

verus! {

/// `v mod 256^n` as `n` little-endian bytes.
pub open spec fn le_bytes(v: nat, n: nat) -> Seq<u8>
    decreases n,
{
    if n == 0 {
        Seq::empty()
    } else {
        seq![(v % 256) as u8] + le_bytes(v / 256, (n - 1) as nat)
    }
}

/// bincode's variable-length integer: values up to 250 in one byte, larger
/// ones as a marker byte (251, 252, 253) and 2, 4 or 8 little-endian bytes.
pub open spec fn varint(v: nat) -> Seq<u8> {
    if v <= 250 {
        seq![v as u8]
    } else if v <= 0xffff {
        seq![251u8] + le_bytes(v, 2)
    } else if v <= 0xffff_ffff {
        seq![252u8] + le_bytes(v, 4)
    } else {
        seq![253u8] + le_bytes(v, 8)
    }
}

/// A string: its UTF-8 byte length as a varint, then the bytes.
pub open spec fn str_bytes(s: Seq<char>) -> Seq<u8> {
    varint(encode_utf8(s).len()) + encode_utf8(s)
}

pub open spec fn opt_str_bytes(o: Option<Seq<char>>) -> Seq<u8> {
    match o {
        None => seq![0u8],
        Some(s) => seq![1u8] + str_bytes(s),
    }
}

pub open spec fn opt_u32_bytes(o: Option<u32>) -> Seq<u8> {
    match o {
        None => seq![0u8],
        Some(v) => seq![1u8] + varint(v as nat),
    }
}

/// The encoding of a record passed from the dispatcher to the workers.
#[verifier::opaque]
pub open spec fn record_bytes(r: RecordView) -> Seq<u8> {
    str_bytes(level_tag(r.level)) + str_bytes(r.target) + opt_str_bytes(r.auth_token)
        + opt_str_bytes(r.app_id) + str_bytes(r.message) + opt_str_bytes(r.module)
        + opt_str_bytes(r.file) + opt_u32_bytes(r.line)
}

/// The encoding of a record sent to a network collector, one per datagram.
#[verifier::opaque]
pub open spec fn net_record_bytes(r: NetRecordView) -> Seq<u8> {
    str_bytes(level_tag(r.level)) + str_bytes(r.target) + str_bytes(r.message) + opt_str_bytes(
        r.module,
    ) + opt_str_bytes(r.file) + opt_u32_bytes(r.line) + varint(r.timestamp as nat)
        + opt_str_bytes(r.auth_token) + opt_str_bytes(r.app_id)
}

/// The level whose tag is `s`, if any.
pub open spec fn level_of_tag(s: Seq<char>) -> Option<Level> {
    if s == level_tag(Level::Error) {
        Some(Level::Error)
    } else if s == level_tag(Level::Warn) {
        Some(Level::Warn)
    } else if s == level_tag(Level::Info) {
        Some(Level::Info)
    } else if s == level_tag(Level::Debug) {
        Some(Level::Debug)
    } else if s == level_tag(Level::Trace) {
        Some(Level::Trace)
    } else {
        None
    }
}

/// Why bytes could not be decoded.
#[derive(Debug, Clone, Copy, PartialEq, Eq, Structural)]
pub enum CodecError {
    /// The bytes are not the encoding of a record (an unknown level tag among them).
    InvalidData,
}

/// Relies on `bincode::encode_to_vec` with `config::standard()` for a `&str`:
/// the byte length as a varint (bincode's `varint_encode_u64`), then the
/// UTF-8 bytes. Writing to a `Vec` does not fail.
#[verifier::external_body]
fn encode_str(s: &str) -> (r: Vec<u8>)
    ensures
        r@ == str_bytes(s@),
{
    bincode::encode_to_vec(s, bincode::config::standard()).unwrap_or_default()
}

/// Relies on `bincode::encode_to_vec` with `config::standard()` for a `u64`:
/// bincode's `varint_encode_u64`. Writing to a `Vec` does not fail.
#[verifier::external_body]
fn encode_u64(v: u64) -> (r: Vec<u8>)
    ensures
        r@ == varint(v as nat),
{
    bincode::encode_to_vec(v, bincode::config::standard()).unwrap_or_default()
}

/// `r` is the string `s` together with the length of its encoding.
pub open spec fn str_decoded(r: Option<(String, usize)>, s: Seq<char>) -> bool {
    r matches Some((v, n)) && v@ == s && n == str_bytes(s).len()
}

/// `r` is the value `v` together with the length of its varint.
pub open spec fn u64_decoded(r: Option<(u64, usize)>, v: u64) -> bool {
    r matches Some((x, n)) && x == v && n == varint(v as nat).len()
}

/// A little-endian unsigned integer.
pub open spec fn le_value(s: Seq<u8>) -> nat
    decreases s.len(),
{
    if s.len() == 0 {
        0
    } else {
        s[0] as nat + 256 * le_value(s.drop_first())
    }
}

/// How bincode reads a varint at the start of `d`: the value and the bytes
/// it takes, or `None` when the marker is not a `u64` marker or bytes are missing.
pub open spec fn varint_read(d: Seq<u8>) -> Option<(nat, nat)> {
    if d.len() == 0 {
        None
    } else if d[0] <= 250 {
        Some((d[0] as nat, 1))
    } else if d[0] == 251 {
        if d.len() >= 3 { Some((le_value(d.subrange(1, 3)), 3)) } else { None }
    } else if d[0] == 252 {
        if d.len() >= 5 { Some((le_value(d.subrange(1, 5)), 5)) } else { None }
    } else if d[0] == 253 {
        if d.len() >= 9 { Some((le_value(d.subrange(1, 9)), 9)) } else { None }
    } else {
        None
    }
}

/// What bincode's `String` decoding returns on `data`: the text and the bytes
/// it took, or `None` on failure. It depends on the bytes alone.
pub uninterp spec fn bincode_string(data: Seq<u8>) -> Option<(Seq<char>, nat)>;

/// A decoded string and its end, as values.
pub open spec fn str_pos_view(r: Option<(String, usize)>) -> Option<(Seq<char>, nat)> {
    match r {
        Some((v, n)) => Some((v@, n as nat)),
        None => None,
    }
}

/// A decoded integer and its end, as values.
pub open spec fn u64_pos_view(r: Option<(u64, usize)>) -> Option<(nat, nat)> {
    match r {
        Some((v, n)) => Some((v as nat, n as nat)),
        None => None,
    }
}

/// Relies on `bincode::decode_from_slice::<String, _>` with `config::standard()`
/// (`Vec<u8>` decoding, then `String::from_utf8`): the result depends on the
/// bytes alone; on bytes that start with the encoding of a string it returns
/// that string and the length of its encoding; it never reports more bytes
/// than it was given. bincode allocates the announced length before reading,
/// so the length prefix must not exceed the bytes given.
#[verifier::external_body]
fn decode_str(data: &[u8]) -> (r: Option<(String, usize)>)
    requires
        varint_read(data@) matches Some((len, k)) ==> k + len <= data@.len(),
    ensures
        str_pos_view(r) == bincode_string(data@),
        r matches Some((_, n)) ==> n <= data@.len(),
        forall|s: Seq<char>, rest: Seq<u8>|
            data@ == #[trigger] str_bytes(s).add(rest) ==> str_decoded(r, s),
{
    match bincode::decode_from_slice::<String, _>(data, bincode::config::standard()) {
        Ok(pair) => Some(pair),
        Err(_) => None,
    }
}

/// Relies on `bincode::decode_from_slice::<u64, _>` with `config::standard()`
/// (`varint_decode_u64`): a marker byte up to 250 is the value; 251, 252 and
/// 253 announce 2, 4 and 8 little-endian bytes; any other marker, or missing
/// bytes, is an error.
#[verifier::external_body]
fn decode_u64(data: &[u8]) -> (r: Option<(u64, usize)>)
    ensures
        u64_pos_view(r) == varint_read(data@),
        r matches Some((_, n)) ==> n <= data@.len(),
        forall|v: u64, rest: Seq<u8>|
            data@ == #[trigger] varint(v as nat).add(rest) ==> u64_decoded(r, v),
{
    match bincode::decode_from_slice::<u64, _>(data, bincode::config::standard()) {
        Ok(pair) => Some(pair),
        Err(_) => None,
    }
}

fn push_opt_str(out: &mut Vec<u8>, o: &Option<String>)
    ensures
        final(out)@ == old(out)@ + opt_str_bytes(opt_view(*o)),
{
    match o {
        None => out.push(0u8),
        Some(s) => {
            out.push(1u8);
            let mut b = encode_str(s.as_str());
            out.append(&mut b);
        },
    }
    assert(final(out)@ =~= old(out)@ + opt_str_bytes(opt_view(*o)));
}

fn push_opt_u32(out: &mut Vec<u8>, o: Option<u32>)
    ensures
        final(out)@ == old(out)@ + opt_u32_bytes(o),
{
    match o {
        None => out.push(0u8),
        Some(v) => {
            out.push(1u8);
            let mut b = encode_u64(v as u64);
            out.append(&mut b);
        },
    }
    assert(final(out)@ =~= old(out)@ + opt_u32_bytes(o));
}

fn push_str_field(out: &mut Vec<u8>, s: &str)
    ensures
        final(out)@ == old(out)@ + str_bytes(s@),
{
    let mut b = encode_str(s);
    out.append(&mut b);
}

/// Encodes a record for the workers.
pub fn encode_record(r: &Record) -> (b: Vec<u8>)
    ensures
        b@ == record_bytes(r@),
{
    let mut out: Vec<u8> = Vec::new();
    push_str_field(&mut out, r.metadata.level.as_str());
    push_str_field(&mut out, r.metadata.target.as_str());
    push_opt_str(&mut out, &r.metadata.auth_token);
    push_opt_str(&mut out, &r.metadata.app_id);
    push_str_field(&mut out, r.args.as_str());
    push_opt_str(&mut out, &r.module);
    push_opt_str(&mut out, &r.file);
    push_opt_u32(&mut out, r.line);
    assert(out@ =~= record_bytes(r@)) by {
        reveal(record_bytes);
    }
    out
}

/// Encodes a network record.
pub fn encode_net_record(r: &NetRecord) -> (b: Vec<u8>)
    ensures
        b@ == net_record_bytes(r@),
{
    let mut out: Vec<u8> = Vec::new();
    push_str_field(&mut out, r.level.as_str());
    push_str_field(&mut out, r.target.as_str());
    push_str_field(&mut out, r.message.as_str());
    push_opt_str(&mut out, &r.module);
    push_opt_str(&mut out, &r.file);
    push_opt_u32(&mut out, r.line);
    let mut ts = encode_u64(r.timestamp);
    out.append(&mut ts);
    push_opt_str(&mut out, &r.auth_token);
    push_opt_str(&mut out, &r.app_id);
    assert(out@ =~= net_record_bytes(r@)) by {
        reveal(net_record_bytes);
    }
    out
}

/// The bytes of `data` from `pos` on.
pub open spec fn after(data: Seq<u8>, pos: int) -> Seq<u8> {
    data.subrange(pos, data.len() as int)
}

fn read_str(data: &[u8], pos: usize) -> (r: Option<(String, usize)>)
    requires
        pos <= data@.len(),
    ensures
        str_pos_view(r) == str_at(data@, pos as nat),
        r matches Some((_, p)) ==> pos <= p <= data@.len(),
        forall|s: Seq<char>, rest: Seq<u8>|
            after(data@, pos as int) == #[trigger] str_bytes(s).add(rest) ==> (r matches Some((v, p))
                && v@ == s && after(data@, p as int) == rest),
{
    let tail = &data[pos..data.len()];
    assert(tail@ == after(data@, pos as int));
    let (len, k) = match decode_u64(tail) {
        Some(x) => x,
        None => {
            proof {
                assert forall|s: Seq<char>, rest: Seq<u8>|
                    after(data@, pos as int) == #[trigger] str_bytes(s).add(rest) implies false by {
                    let u = encode_utf8(s);
                    assert(tail@ =~= varint(u.len()).add(u + rest));
                }
            }
            return None;
        },
    };
    if len > (tail.len() - k) as u64 {
        proof {
            assert forall|s: Seq<char>, rest: Seq<u8>|
                after(data@, pos as int) == #[trigger] str_bytes(s).add(rest) implies false by {
                let u = encode_utf8(s);
                assert(tail@ =~= varint(u.len()).add(u + rest));
            }
        }
        return None;
    }
    match decode_str(tail) {
        Some((v, n)) => {
            assert forall|s: Seq<char>, rest: Seq<u8>|
                after(data@, pos as int) == #[trigger] str_bytes(s).add(rest) implies after(
                data@,
                (pos + n) as int,
            ) == rest by {
                assert(after(data@, (pos + n) as int) =~= str_bytes(s).add(rest).subrange(
                    n as int,
                    tail@.len() as int,
                ));
            }
            Some((v, pos + n))
        },
        None => None,
    }
}

/// The string encoded at `pos`, with the position after it.
pub open spec fn str_at(d: Seq<u8>, pos: nat) -> Option<(Seq<char>, nat)> {
    let t = after(d, pos as int);
    match varint_read(t) {
        None => None,
        Some((len, k)) => if k + len > t.len() {
            None
        } else {
            match bincode_string(t) {
                Some((s, n)) => Some((s, pos + n)),
                None => None,
            }
        },
    }
}

/// The integer encoded at `pos`, with the position after it.
pub open spec fn u64_at(d: Seq<u8>, pos: nat) -> Option<(nat, nat)> {
    match varint_read(after(d, pos as int)) {
        Some((v, k)) => Some((v, pos + k)),
        None => None,
    }
}

fn read_u64(data: &[u8], pos: usize) -> (r: Option<(u64, usize)>)
    requires
        pos <= data@.len(),
    ensures
        u64_pos_view(r) == u64_at(data@, pos as nat),
        r matches Some((_, p)) ==> pos <= p <= data@.len(),
        forall|v: u64, rest: Seq<u8>|
            after(data@, pos as int) == #[trigger] varint(v as nat).add(rest) ==> (r matches Some((x, p))
                && x == v && after(data@, p as int) == rest),
{
    let tail = &data[pos..data.len()];
    assert(tail@ == after(data@, pos as int));
    match decode_u64(tail) {
        Some((x, n)) => {
            assert forall|v: u64, rest: Seq<u8>|
                after(data@, pos as int) == #[trigger] varint(v as nat).add(rest) implies after(
                data@,
                (pos + n) as int,
            ) == rest by {
                assert(after(data@, (pos + n) as int) =~= varint(v as nat).add(rest).subrange(
                    n as int,
                    tail@.len() as int,
                ));
            }
            Some((x, pos + n))
        },
        None => None,
    }
}

/// An optional string and its end, as values.
pub open spec fn opt_str_pos_view(r: Option<(Option<String>, usize)>) -> Option<(Option<Seq<char>>, nat)> {
    match r {
        Some((v, n)) => Some((opt_view(v), n as nat)),
        None => None,
    }
}

/// The optional string encoded at `pos`, with the position after it.
pub open spec fn opt_str_at(d: Seq<u8>, pos: nat) -> Option<(Option<Seq<char>>, nat)> {
    if pos >= d.len() {
        None
    } else if d[pos as int] == 0 {
        Some((None, pos + 1))
    } else if d[pos as int] == 1 {
        match str_at(d, pos + 1) {
            Some((s, p)) => Some((Some(s), p)),
            None => None,
        }
    } else {
        None
    }
}

/// The optional `u32` encoded at `pos`, with the position after it.
pub open spec fn opt_u32_at(d: Seq<u8>, pos: nat) -> Option<(Option<u32>, nat)> {
    if pos >= d.len() {
        None
    } else if d[pos as int] == 0 {
        Some((None, pos + 1))
    } else if d[pos as int] == 1 {
        match u64_at(d, pos + 1) {
            Some((v, p)) => if v > u32::MAX {
                None
            } else {
                Some((Some(v as u32), p))
            },
            None => None,
        }
    } else {
        None
    }
}

/// The level tag encoded at `pos`, with the position after it.
pub open spec fn level_at(d: Seq<u8>, pos: nat) -> Option<(Level, nat)> {
    match str_at(d, pos) {
        Some((s, p)) => match level_of_tag(s) {
            Some(l) => Some((l, p)),
            None => None,
        },
        None => None,
    }
}

pub open spec fn opt_u32_pos_view(r: Option<(Option<u32>, usize)>) -> Option<(Option<u32>, nat)> {
    match r {
        Some((v, n)) => Some((v, n as nat)),
        None => None,
    }
}

pub open spec fn level_pos_view(r: Option<(Level, usize)>) -> Option<(Level, nat)> {
    match r {
        Some((v, n)) => Some((v, n as nat)),
        None => None,
    }
}

fn read_opt_str(data: &[u8], pos: usize) -> (r: Option<(Option<String>, usize)>)
    requires
        pos <= data@.len(),
    ensures
        opt_str_pos_view(r) == opt_str_at(data@, pos as nat),
        r matches Some((_, p)) ==> pos <= p <= data@.len(),
        forall|o: Option<Seq<char>>, rest: Seq<u8>|
            after(data@, pos as int) == #[trigger] opt_str_bytes(o).add(rest) ==> (r matches Some((
                v,
                p,
            )) && opt_view(v) == o && after(data@, p as int) == rest),
{
    if pos >= data.len() {
        assert forall|o: Option<Seq<char>>, rest: Seq<u8>|
            after(data@, pos as int) == #[trigger] opt_str_bytes(o).add(rest) implies false by {
            assert(opt_str_bytes(o).add(rest).len() >= 1);
        }
        return None;
    }
    let tag = data[pos];
    if tag == 0 {
        assert forall|o: Option<Seq<char>>, rest: Seq<u8>|
            after(data@, pos as int) == #[trigger] opt_str_bytes(o).add(rest) implies o is None && after(
            data@,
            pos + 1,
        ) == rest by {
            assert(after(data@, pos as int)[0] == tag);
            assert(after(data@, pos + 1) =~= opt_str_bytes(o).add(rest).subrange(1, after(data@, pos as int).len() as int));
        }
        Some((None, pos + 1))
    } else if tag == 1 {
        match read_str(data, pos + 1) {
            Some((s, p)) => {
                assert forall|o: Option<Seq<char>>, rest: Seq<u8>|
                    after(data@, pos as int) == #[trigger] opt_str_bytes(o).add(rest) implies opt_view(Some(s)) == o && after(data@, p as int) == rest by {
                    assert(after(data@, pos as int)[0] == tag);
                    assert(opt_str_bytes(o).add(rest)[0] == tag);
                    let s0 = o.unwrap();
                    assert(after(data@, pos + 1) =~= after(data@, pos as int).subrange(1, after(data@, pos as int).len() as int));
                    assert(after(data@, pos + 1) =~= str_bytes(s0).add(rest));
                }
                Some((Some(s), p))
            },
            None => {
                assert forall|o: Option<Seq<char>>, rest: Seq<u8>|
                    after(data@, pos as int) == #[trigger] opt_str_bytes(o).add(rest) implies false by {
                    assert(after(data@, pos as int)[0] == tag);
                    assert(opt_str_bytes(o).add(rest)[0] == tag);
                    let s0 = o.unwrap();
                    assert(after(data@, pos + 1) =~= after(data@, pos as int).subrange(1, after(data@, pos as int).len() as int));
                    assert(after(data@, pos + 1) =~= str_bytes(s0).add(rest));
                }
                None
            },
        }
    } else {
        assert forall|o: Option<Seq<char>>, rest: Seq<u8>|
            after(data@, pos as int) == #[trigger] opt_str_bytes(o).add(rest) implies false by {
            assert(after(data@, pos as int)[0] == tag);
        }
        None
    }
}

fn read_opt_u32(data: &[u8], pos: usize) -> (r: Option<(Option<u32>, usize)>)
    requires
        pos <= data@.len(),
    ensures
        opt_u32_pos_view(r) == opt_u32_at(data@, pos as nat),
        r matches Some((_, p)) ==> pos <= p <= data@.len(),
        forall|o: Option<u32>, rest: Seq<u8>|
            after(data@, pos as int) == #[trigger] opt_u32_bytes(o).add(rest) ==> (r matches Some((
                v,
                p,
            )) && v == o && after(data@, p as int) == rest),
{
    if pos >= data.len() {
        assert forall|o: Option<u32>, rest: Seq<u8>|
            after(data@, pos as int) == #[trigger] opt_u32_bytes(o).add(rest) implies false by {
            assert(opt_u32_bytes(o).add(rest).len() >= 1);
        }
        return None;
    }
    let tag = data[pos];
    if tag == 0 {
        assert forall|o: Option<u32>, rest: Seq<u8>|
            after(data@, pos as int) == #[trigger] opt_u32_bytes(o).add(rest) implies o is None && after(
            data@,
            pos + 1,
        ) == rest by {
            assert(after(data@, pos as int)[0] == tag);
            assert(after(data@, pos + 1) =~= opt_u32_bytes(o).add(rest).subrange(1, after(data@, pos as int).len() as int));
        }
        Some((None, pos + 1))
    } else if tag == 1 {
        match read_u64(data, pos + 1) {
            Some((x, p)) => {
                if x > 0xffff_ffff {
                    assert forall|o: Option<u32>, rest: Seq<u8>|
                        after(data@, pos as int) == #[trigger] opt_u32_bytes(o).add(rest) implies false by {
                        assert(after(data@, pos as int)[0] == tag);
                        assert(opt_u32_bytes(o).add(rest)[0] == tag);
                        let v0 = o.unwrap();
                        assert(after(data@, pos + 1) =~= after(data@, pos as int).subrange(1, after(data@, pos as int).len() as int));
                        assert(after(data@, pos + 1) =~= varint(v0 as u64 as nat).add(rest));
                    }
                    return None;
                }
                assert forall|o: Option<u32>, rest: Seq<u8>|
                    after(data@, pos as int) == #[trigger] opt_u32_bytes(o).add(rest) implies Some(x as u32) == o && after(data@, p as int) == rest by {
                    assert(after(data@, pos as int)[0] == tag);
                    assert(opt_u32_bytes(o).add(rest)[0] == tag);
                    let v0 = o.unwrap();
                    assert(after(data@, pos + 1) =~= after(data@, pos as int).subrange(1, after(data@, pos as int).len() as int));
                    assert(after(data@, pos + 1) =~= varint(v0 as u64 as nat).add(rest));
                }
                Some((Some(x as u32), p))
            },
            None => {
                assert forall|o: Option<u32>, rest: Seq<u8>|
                    after(data@, pos as int) == #[trigger] opt_u32_bytes(o).add(rest) implies false by {
                    assert(after(data@, pos as int)[0] == tag);
                    assert(opt_u32_bytes(o).add(rest)[0] == tag);
                    let v0 = o.unwrap();
                    assert(after(data@, pos + 1) =~= after(data@, pos as int).subrange(1, after(data@, pos as int).len() as int));
                    assert(after(data@, pos + 1) =~= varint(v0 as u64 as nat).add(rest));
                }
                None
            },
        }
    } else {
        assert forall|o: Option<u32>, rest: Seq<u8>|
            after(data@, pos as int) == #[trigger] opt_u32_bytes(o).add(rest) implies false by {
            assert(after(data@, pos as int)[0] == tag);
        }
        None
    }
}

/// The level named by a tag.
pub fn level_from_tag(s: &str) -> (r: Option<Level>)
    ensures
        r == level_of_tag(s@),
{
    proof {
        reveal_strlit("ERROR");
        reveal_strlit("WARN");
        reveal_strlit("INFO");
        reveal_strlit("DEBUG");
        reveal_strlit("TRACE");
        assert("ERROR"@ =~= level_tag(Level::Error));
        assert("WARN"@ =~= level_tag(Level::Warn));
        assert("INFO"@ =~= level_tag(Level::Info));
        assert("DEBUG"@ =~= level_tag(Level::Debug));
        assert("TRACE"@ =~= level_tag(Level::Trace));
    }
    if str_eq(s, "ERROR") {
        Some(Level::Error)
    } else if str_eq(s, "WARN") {
        Some(Level::Warn)
    } else if str_eq(s, "INFO") {
        Some(Level::Info)
    } else if str_eq(s, "DEBUG") {
        Some(Level::Debug)
    } else if str_eq(s, "TRACE") {
        Some(Level::Trace)
    } else {
        None
    }
}

fn read_level(data: &[u8], pos: usize) -> (r: Option<(Level, usize)>)
    requires
        pos <= data@.len(),
    ensures
        level_pos_view(r) == level_at(data@, pos as nat),
        r matches Some((_, p)) ==> pos <= p <= data@.len(),
        forall|l: Level, rest: Seq<u8>|
            after(data@, pos as int) == #[trigger] str_bytes(level_tag(l)).add(rest) ==> (r matches Some((
                x,
                p,
            )) && x == l && after(data@, p as int) == rest),
        forall|t: Seq<char>, rest: Seq<u8>|
            after(data@, pos as int) == #[trigger] str_bytes(t).add(rest) && level_of_tag(t) is None
                ==> r is None,
{
    match read_str(data, pos) {
        Some((s, p)) => {
            match level_from_tag(s.as_str()) {
                Some(l) => {
                    proof {
                        assert forall|l2: Level| level_of_tag(level_tag(l2)) == Some(l2) by {
                            lemma_level_of_tag(l2);
                        }
                    }
                    Some((l, p))
                },
                None => None,
            }
        },
        None => None,
    }
}

pub open spec fn pow256(n: nat) -> nat
    decreases n,
{
    if n == 0 {
        1
    } else {
        256 * pow256((n - 1) as nat)
    }
}

proof fn lemma_le_bytes_len(v: nat, n: nat)
    ensures
        le_bytes(v, n).len() == n,
    decreases n,
{
    if n > 0 {
        lemma_le_bytes_len(v / 256, (n - 1) as nat);
    }
}

proof fn lemma_le_bytes_injective(a: nat, b: nat, n: nat)
    requires
        a < pow256(n),
        b < pow256(n),
        le_bytes(a, n) == le_bytes(b, n),
    ensures
        a == b,
    decreases n,
{
    if n > 0 {
        let p = pow256((n - 1) as nat);
        assert(le_bytes(a, n)[0] == le_bytes(b, n)[0]);
        assert(le_bytes(a, n)[0] == (a % 256) as u8);
        assert(le_bytes(b, n)[0] == (b % 256) as u8);
        assert(a % 256 == b % 256);
        assert(le_bytes(a / 256, (n - 1) as nat) =~= le_bytes(a, n).subrange(1, le_bytes(a, n).len() as int));
        assert(le_bytes(b / 256, (n - 1) as nat) =~= le_bytes(b, n).subrange(1, le_bytes(b, n).len() as int));
        assert(a / 256 < p) by (nonlinear_arith)
            requires
                a < 256 * p,
        ;
        assert(b / 256 < p) by (nonlinear_arith)
            requires
                b < 256 * p,
        ;
        lemma_le_bytes_injective(a / 256, b / 256, (n - 1) as nat);
        assert(a == 256 * (a / 256) + a % 256);
        assert(b == 256 * (b / 256) + b % 256);
    }
}

/// The length of a varint, read from its first byte.
pub open spec fn varint_len_of_marker(first: u8) -> nat {
    if first <= 250 {
        1
    } else if first == 251 {
        3
    } else if first == 252 {
        5
    } else {
        9
    }
}

proof fn lemma_varint_shape(v: nat)
    requires
        v <= u64::MAX,
    ensures
        varint(v).len() >= 1,
        varint(v).len() == varint_len_of_marker(varint(v)[0]),
        varint(v)[0] <= 253,
{
    lemma_le_bytes_len(v, 2);
    lemma_le_bytes_len(v, 4);
    lemma_le_bytes_len(v, 8);
}

/// Varints are prefix-free: a varint followed by anything determines both.
pub proof fn lemma_varint_unique(a: nat, b: nat, r1: Seq<u8>, r2: Seq<u8>)
    requires
        a <= u64::MAX,
        b <= u64::MAX,
        varint(a) + r1 == varint(b) + r2,
    ensures
        a == b,
        r1 == r2,
{
    let x = varint(a) + r1;
    lemma_varint_shape(a);
    lemma_varint_shape(b);
    assert(x[0] == varint(a)[0]);
    assert(x[0] == (varint(b) + r2)[0]);
    let k = varint(a).len() as int;
    assert(varint(a) =~= x.subrange(0, k));
    assert(varint(b) =~= (varint(b) + r2).subrange(0, k));
    assert(r1 =~= x.subrange(k, x.len() as int));
    assert(r2 =~= (varint(b) + r2).subrange(k, x.len() as int));
    reveal_with_fuel(pow256, 9);
    lemma_le_bytes_len(a, 2);
    lemma_le_bytes_len(a, 4);
    lemma_le_bytes_len(a, 8);
    lemma_le_bytes_len(b, 2);
    lemma_le_bytes_len(b, 4);
    lemma_le_bytes_len(b, 8);
    if a <= 250 {
        assert(varint(a)[0] == varint(b)[0]);
    } else {
        let t = varint(a).subrange(1, k);
        assert(varint(a).subrange(1, k) == varint(b).subrange(1, k));
        if a <= 0xffff {
            assert(t =~= le_bytes(a, 2));
            assert(varint(b).subrange(1, k) =~= le_bytes(b, 2));
            lemma_le_bytes_injective(a, b, 2);
        } else if a <= 0xffff_ffff {
            assert(t =~= le_bytes(a, 4));
            assert(varint(b).subrange(1, k) =~= le_bytes(b, 4));
            lemma_le_bytes_injective(a, b, 4);
        } else {
            assert(t =~= le_bytes(a, 8));
            assert(varint(b).subrange(1, k) =~= le_bytes(b, 8));
            lemma_le_bytes_injective(a, b, 8);
        }
    }
}

/// Encoded strings are prefix-free.
pub proof fn lemma_str_unique(s1: Seq<char>, s2: Seq<char>, r1: Seq<u8>, r2: Seq<u8>)
    requires
        str_bytes(s1) + r1 == str_bytes(s2) + r2,
        (str_bytes(s1) + r1).len() <= u64::MAX,
    ensures
        s1 == s2,
        r1 == r2,
{
    let u1 = encode_utf8(s1);
    let u2 = encode_utf8(s2);
    let x = str_bytes(s1) + r1;
    assert(x =~= varint(u1.len()) + (u1 + r1));
    assert(str_bytes(s2) + r2 =~= varint(u2.len()) + (u2 + r2));
    lemma_varint_shape(u1.len());
    if u2.len() > u64::MAX {
        assert((str_bytes(s2) + r2).len() > u64::MAX);
    }
    lemma_varint_unique(u1.len(), u2.len(), u1 + r1, u2 + r2);
    assert(u1 =~= (u1 + r1).subrange(0, u1.len() as int));
    assert(u2 =~= (u2 + r2).subrange(0, u1.len() as int));
    assert(r1 =~= (u1 + r1).subrange(u1.len() as int, (u1 + r1).len() as int));
    assert(r2 =~= (u2 + r2).subrange(u1.len() as int, (u1 + r1).len() as int));
    vstd::utf8::encode_utf8_decode_utf8(s1);
    vstd::utf8::encode_utf8_decode_utf8(s2);
}

/// Encoded optional strings are prefix-free.
pub proof fn lemma_opt_str_unique(o1: Option<Seq<char>>, o2: Option<Seq<char>>, r1: Seq<u8>, r2: Seq<u8>)
    requires
        opt_str_bytes(o1) + r1 == opt_str_bytes(o2) + r2,
        (opt_str_bytes(o1) + r1).len() <= u64::MAX,
    ensures
        o1 == o2,
        r1 == r2,
{
    let x = opt_str_bytes(o1) + r1;
    assert(x[0] == opt_str_bytes(o1)[0]);
    assert(x[0] == (opt_str_bytes(o2) + r2)[0]);
    match o1 {
        None => {
            assert(r1 =~= x.subrange(1, x.len() as int));
            assert(r2 =~= (opt_str_bytes(o2) + r2).subrange(1, x.len() as int));
        },
        Some(s1) => {
            let s2 = o2.unwrap();
            assert(str_bytes(s1) + r1 =~= x.subrange(1, x.len() as int));
            assert(str_bytes(s2) + r2 =~= (opt_str_bytes(o2) + r2).subrange(1, x.len() as int));
            lemma_str_unique(s1, s2, r1, r2);
        },
    }
}

/// Encoded optional integers are prefix-free.
pub proof fn lemma_opt_u32_unique(o1: Option<u32>, o2: Option<u32>, r1: Seq<u8>, r2: Seq<u8>)
    requires
        opt_u32_bytes(o1) + r1 == opt_u32_bytes(o2) + r2,
    ensures
        o1 == o2,
        r1 == r2,
{
    let x = opt_u32_bytes(o1) + r1;
    assert(x[0] == opt_u32_bytes(o1)[0]);
    assert(x[0] == (opt_u32_bytes(o2) + r2)[0]);
    match o1 {
        None => {
            assert(r1 =~= x.subrange(1, x.len() as int));
            assert(r2 =~= (opt_u32_bytes(o2) + r2).subrange(1, x.len() as int));
        },
        Some(v1) => {
            let v2 = o2.unwrap();
            assert(varint(v1 as nat) + r1 =~= x.subrange(1, x.len() as int));
            assert(varint(v2 as nat) + r2 =~= (opt_u32_bytes(o2) + r2).subrange(1, x.len() as int));
            lemma_varint_unique(v1 as nat, v2 as nat, r1, r2);
        },
    }
}

proof fn lemma_level_tag_injective(a: Level, b: Level)
    requires
        level_tag(a) == level_tag(b),
    ensures
        a == b,
{
    if a != b {
        assert(level_tag(a)[0] != level_tag(b)[0] || level_tag(a).len() != level_tag(b).len());
    }
}

/// Every level's tag names it.
pub proof fn lemma_level_of_tag(l: Level)
    ensures
        level_of_tag(level_tag(l)) == Some(l),
{
    if l != Level::Error {
        assert(level_tag(l) != level_tag(Level::Error)) by {
            assert(level_tag(l)[0] != level_tag(Level::Error)[0] || level_tag(l).len() != 5);
        }
    }
    if l != Level::Error && l != Level::Warn {
        assert(level_tag(l) != level_tag(Level::Warn)) by {
            assert(level_tag(l)[0] != level_tag(Level::Warn)[0]);
        }
    }
    if l == Level::Debug || l == Level::Trace {
        assert(level_tag(l) != level_tag(Level::Info)) by {
            assert(level_tag(l).len() != 4);
        }
    }
    if l == Level::Trace {
        assert(level_tag(l) != level_tag(Level::Debug)) by {
            assert(level_tag(l)[0] != level_tag(Level::Debug)[0]);
        }
    }
}

/// The encoding of a record from field `k` on, followed by `rest`.
pub open spec fn record_suffix(m: RecordView, rest: Seq<u8>, k: nat) -> Seq<u8>
    decreases 8 - k,
{
    if k >= 8 {
        rest
    } else {
        let field = if k == 0 {
            str_bytes(level_tag(m.level))
        } else if k == 1 {
            str_bytes(m.target)
        } else if k == 2 {
            opt_str_bytes(m.auth_token)
        } else if k == 3 {
            opt_str_bytes(m.app_id)
        } else if k == 4 {
            str_bytes(m.message)
        } else if k == 5 {
            opt_str_bytes(m.module)
        } else if k == 6 {
            opt_str_bytes(m.file)
        } else {
            opt_u32_bytes(m.line)
        };
        field + record_suffix(m, rest, k + 1)
    }
}

proof fn lemma_record_suffix_start(m: RecordView, rest: Seq<u8>)
    ensures
        record_bytes(m) + rest == record_suffix(m, rest, 0),
{
    let s8 = record_suffix(m, rest, 8);
    let s7 = record_suffix(m, rest, 7);
    let s6 = record_suffix(m, rest, 6);
    let s5 = record_suffix(m, rest, 5);
    let s4 = record_suffix(m, rest, 4);
    let s3 = record_suffix(m, rest, 3);
    let s2 = record_suffix(m, rest, 2);
    let s1 = record_suffix(m, rest, 1);
    let s0 = record_suffix(m, rest, 0);
    assert(s8 == rest);
    assert(s7 == opt_u32_bytes(m.line) + s8);
    assert(s6 == opt_str_bytes(m.file) + s7);
    assert(s5 == opt_str_bytes(m.module) + s6);
    assert(s4 == str_bytes(m.message) + s5);
    assert(s3 == opt_str_bytes(m.app_id) + s4);
    assert(s2 == opt_str_bytes(m.auth_token) + s3);
    assert(s1 == str_bytes(m.target) + s2);
    assert(s0 == str_bytes(level_tag(m.level)) + s1);
    let a1 = str_bytes(level_tag(m.level));
    let a2 = str_bytes(m.target);
    let a3 = opt_str_bytes(m.auth_token);
    let a4 = opt_str_bytes(m.app_id);
    let a5 = str_bytes(m.message);
    let a6 = opt_str_bytes(m.module);
    let a7 = opt_str_bytes(m.file);
    let a8 = opt_u32_bytes(m.line);
    let x2 = a1 + a2;
    let x3 = x2 + a3;
    let x4 = x3 + a4;
    let x5 = x4 + a5;
    let x6 = x5 + a6;
    let x7 = x6 + a7;
    assert(record_bytes(m) == x7 + a8) by {
        reveal(record_bytes);
    }
    lemma_concat_associative(x7, a8, rest);
    lemma_concat_associative(x6, a7, s7);
    lemma_concat_associative(x5, a6, s6);
    lemma_concat_associative(x4, a5, s5);
    lemma_concat_associative(x3, a4, s4);
    lemma_concat_associative(x2, a3, s3);
    lemma_concat_associative(a1, a2, s2);
}

/// `read_str`, stated for one expected string.
fn read_str_as(data: &[u8], pos: usize, Ghost(on): Ghost<bool>, Ghost(s): Ghost<Seq<char>>, Ghost(rest): Ghost<Seq<u8>>) -> (r: Option<(String, usize)>)
    requires
        pos <= data@.len(),
    ensures
        str_pos_view(r) == str_at(data@, pos as nat),
        r matches Some((_, p)) ==> pos <= p <= data@.len(),
        on && after(data@, pos as int) == str_bytes(s).add(rest) ==> (r matches Some((v, p)) && v@ == s
            && after(data@, p as int) == rest),
{
    read_str(data, pos)
}

/// `read_opt_str`, stated for one expected value.
fn read_opt_str_as(data: &[u8], pos: usize, Ghost(on): Ghost<bool>, Ghost(o): Ghost<Option<Seq<char>>>, Ghost(rest): Ghost<Seq<u8>>) -> (r: Option<(Option<String>, usize)>)
    requires
        pos <= data@.len(),
    ensures
        opt_str_pos_view(r) == opt_str_at(data@, pos as nat),
        r matches Some((_, p)) ==> pos <= p <= data@.len(),
        on && after(data@, pos as int) == opt_str_bytes(o).add(rest) ==> (r matches Some((v, p))
            && opt_view(v) == o && after(data@, p as int) == rest),
{
    read_opt_str(data, pos)
}

/// `read_opt_u32`, stated for one expected value.
fn read_opt_u32_as(data: &[u8], pos: usize, Ghost(on): Ghost<bool>, Ghost(o): Ghost<Option<u32>>, Ghost(rest): Ghost<Seq<u8>>) -> (r: Option<(Option<u32>, usize)>)
    requires
        pos <= data@.len(),
    ensures
        opt_u32_pos_view(r) == opt_u32_at(data@, pos as nat),
        r matches Some((_, p)) ==> pos <= p <= data@.len(),
        on && after(data@, pos as int) == opt_u32_bytes(o).add(rest) ==> (r matches Some((v, p))
            && v == o && after(data@, p as int) == rest),
{
    read_opt_u32(data, pos)
}

/// `read_u64`, stated for one expected value.
fn read_u64_as(data: &[u8], pos: usize, Ghost(on): Ghost<bool>, Ghost(v): Ghost<u64>, Ghost(rest): Ghost<Seq<u8>>) -> (r: Option<(u64, usize)>)
    requires
        pos <= data@.len(),
    ensures
        u64_pos_view(r) == u64_at(data@, pos as nat),
        r matches Some((_, p)) ==> pos <= p <= data@.len(),
        on && after(data@, pos as int) == varint(v as nat).add(rest) ==> (r matches Some((x, p)) && x == v
            && after(data@, p as int) == rest),
{
    read_u64(data, pos)
}

/// `read_level` at the start of the bytes, stated for one expected level.
fn read_first_level(data: &[u8], Ghost(on): Ghost<bool>, Ghost(l): Ghost<Level>, Ghost(rest): Ghost<Seq<u8>>) -> (r: Option<(Level, usize)>)
    ensures
        level_pos_view(r) == level_at(data@, 0),
        r matches Some((_, p)) ==> p <= data@.len(),
        on && data@ == str_bytes(level_tag(l)).add(rest) ==> (r matches Some((x, p)) && x == l
            && after(data@, p as int) == rest),
        forall|t: Seq<char>, rest: Seq<u8>|
            data@ == #[trigger] str_bytes(t).add(rest) && level_of_tag(t) is None ==> r is None,
{
    assert(after(data@, 0) =~= data@);
    read_level(data, 0)
}

/// Two records encoded at the start of the same bytes are the same record.
proof fn lemma_encodes_record_unique(data: Seq<u8>, m1: RecordView, m2: RecordView)
    requires
        encodes_record(data, m1),
        encodes_record(data, m2),
        data.len() <= u64::MAX,
    ensures
        m1 == m2,
{
    reveal(encodes_record);
    let r1 = choose|rest: Seq<u8>| data == #[trigger] (record_bytes(m1) + rest);
    let r2 = choose|rest: Seq<u8>| data == #[trigger] (record_bytes(m2) + rest);
    lemma_record_unique(m1, m2, r1, r2);
}

/// Record encodings are prefix-free: bytes that begin with the encoding of a
/// record begin with the encoding of no other record.
pub proof fn lemma_record_unique(m1: RecordView, m2: RecordView, r1: Seq<u8>, r2: Seq<u8>)
    requires
        record_bytes(m1) + r1 == record_bytes(m2) + r2,
        (record_bytes(m1) + r1).len() <= u64::MAX,
    ensures
        m1 == m2,
        r1 == r2,
{
    lemma_record_suffix_start(m1, r1);
    lemma_record_suffix_start(m2, r2);
    let x = record_suffix(m1, r1, 0);
    reveal_with_fuel(record_suffix, 2);
    lemma_str_unique(level_tag(m1.level), level_tag(m2.level), record_suffix(m1, r1, 1), record_suffix(m2, r2, 1));
    lemma_level_tag_injective(m1.level, m2.level);
    assert(record_suffix(m1, r1, 1).len() <= x.len());
    lemma_str_unique(m1.target, m2.target, record_suffix(m1, r1, 2), record_suffix(m2, r2, 2));
    assert(record_suffix(m1, r1, 2).len() <= x.len());
    lemma_opt_str_unique(m1.auth_token, m2.auth_token, record_suffix(m1, r1, 3), record_suffix(m2, r2, 3));
    assert(record_suffix(m1, r1, 3).len() <= x.len());
    lemma_opt_str_unique(m1.app_id, m2.app_id, record_suffix(m1, r1, 4), record_suffix(m2, r2, 4));
    assert(record_suffix(m1, r1, 4).len() <= x.len());
    lemma_str_unique(m1.message, m2.message, record_suffix(m1, r1, 5), record_suffix(m2, r2, 5));
    assert(record_suffix(m1, r1, 5).len() <= x.len());
    lemma_opt_str_unique(m1.module, m2.module, record_suffix(m1, r1, 6), record_suffix(m2, r2, 6));
    assert(record_suffix(m1, r1, 6).len() <= x.len());
    lemma_opt_str_unique(m1.file, m2.file, record_suffix(m1, r1, 7), record_suffix(m2, r2, 7));
    lemma_opt_u32_unique(m1.line, m2.line, record_suffix(m1, r1, 8), record_suffix(m2, r2, 8));
}

/// `data` begins with the encoding of the record `m`.
#[verifier::opaque]
pub open spec fn encodes_record(data: Seq<u8>, m: RecordView) -> bool {
    exists|rest: Seq<u8>| data == #[trigger] (record_bytes(m) + rest)
}

/// The metadata fields of a record at the start of `d`, with the position after them.
pub open spec fn meta_at(d: Seq<u8>) -> Option<(Level, Seq<char>, Option<Seq<char>>, Option<Seq<char>>, nat)> {
    match level_at(d, 0) {
        None => None,
        Some((l, p1)) => match str_at(d, p1) {
            None => None,
            Some((t, p2)) => match opt_str_at(d, p2) {
                None => None,
                Some((a, p3)) => match opt_str_at(d, p3) {
                    None => None,
                    Some((ap, p4)) => Some((l, t, a, ap, p4)),
                },
            },
        },
    }
}

/// The remaining fields of a record from `pos` on.
pub open spec fn body_at(d: Seq<u8>, pos: nat) -> Option<(Seq<char>, Option<Seq<char>>, Option<Seq<char>>, Option<u32>)> {
    match str_at(d, pos) {
        None => None,
        Some((msg, p5)) => match opt_str_at(d, p5) {
            None => None,
            Some((md, p6)) => match opt_str_at(d, p6) {
                None => None,
                Some((f, p7)) => match opt_u32_at(d, p7) {
                    None => None,
                    Some((l, _)) => Some((msg, md, f, l)),
                },
            },
        },
    }
}

/// The record that `decode_record` reads from `d`, if any.
pub open spec fn parse_record(d: Seq<u8>) -> Option<RecordView> {
    match meta_at(d) {
        None => None,
        Some((level, target, auth_token, app_id, p)) => match body_at(d, p) {
            None => None,
            Some((message, module, file, line)) => Some(
                RecordView { level, target, auth_token, app_id, message, module, file, line },
            ),
        },
    }
}

pub open spec fn meta_view(r: Option<(Metadata, usize)>) -> Option<(Level, Seq<char>, Option<Seq<char>>, Option<Seq<char>>, nat)> {
    match r {
        Some((md, p)) => Some((md.level, md.target@, opt_view(md.auth_token), opt_view(md.app_id), p as nat)),
        None => None,
    }
}

pub open spec fn body_view(r: Option<(String, Option<String>, Option<String>, Option<u32>)>) -> Option<(Seq<char>, Option<Seq<char>>, Option<Seq<char>>, Option<u32>)> {
    match r {
        Some((m, md, f, l)) => Some((m@, opt_view(md), opt_view(f), l)),
        None => None,
    }
}

fn read_metadata(data: &[u8], Ghost(on): Ghost<bool>, Ghost(m): Ghost<RecordView>, Ghost(rest): Ghost<Seq<u8>>) -> (r: Option<(Metadata, usize)>)
    requires
        on ==> data@ == record_suffix(m, rest, 0),
    ensures
        meta_view(r) == meta_at(data@),
        r matches Some((_, p)) ==> p <= data@.len(),
        on ==> (r matches Some((md, p)) && md.level == m.level && md.target@ == m.target && opt_view(
            md.auth_token,
        ) == m.auth_token && opt_view(md.app_id) == m.app_id && after(data@, p as int)
            == record_suffix(m, rest, 4)),
        forall|t: Seq<char>, rest: Seq<u8>|
            data@ == #[trigger] str_bytes(t).add(rest) && level_of_tag(t) is None ==> r is None,
{
    proof {
        if on {
            assert(record_suffix(m, rest, 0) == str_bytes(level_tag(m.level)).add(record_suffix(m, rest, 1)));
            assert(record_suffix(m, rest, 1) == str_bytes(m.target).add(record_suffix(m, rest, 2)));
            assert(record_suffix(m, rest, 2) == opt_str_bytes(m.auth_token).add(record_suffix(m, rest, 3)));
            assert(record_suffix(m, rest, 3) == opt_str_bytes(m.app_id).add(record_suffix(m, rest, 4)));
        }
    }
    let (level, pos1) = match read_first_level(data, Ghost(on), Ghost(m.level), Ghost(record_suffix(m, rest, 1))) {
        Some(x) => x,
        None => return None,
    };
    let (target, pos2) = match read_str_as(data, pos1, Ghost(on), Ghost(m.target), Ghost(record_suffix(m, rest, 2))) {
        Some(x) => x,
        None => return None,
    };
    let (auth_token, pos3) = match read_opt_str_as(data, pos2, Ghost(on), Ghost(m.auth_token), Ghost(record_suffix(m, rest, 3))) {
        Some(x) => x,
        None => return None,
    };
    let (app_id, pos4) = match read_opt_str_as(data, pos3, Ghost(on), Ghost(m.app_id), Ghost(record_suffix(m, rest, 4))) {
        Some(x) => x,
        None => return None,
    };
    Some((Metadata { level, target, auth_token, app_id }, pos4))
}

fn read_body(data: &[u8], pos: usize, Ghost(on): Ghost<bool>, Ghost(m): Ghost<RecordView>, Ghost(rest): Ghost<Seq<u8>>) -> (r: Option<(String, Option<String>, Option<String>, Option<u32>)>)
    requires
        pos <= data@.len(),
        on ==> after(data@, pos as int) == record_suffix(m, rest, 4),
    ensures
        body_view(r) == body_at(data@, pos as nat),
        on ==> (r matches Some((args, module, file, line)) && args@ == m.message && opt_view(module)
            == m.module && opt_view(file) == m.file && line == m.line),
{
    proof {
        if on {
            assert(record_suffix(m, rest, 4) == str_bytes(m.message).add(record_suffix(m, rest, 5)));
            assert(record_suffix(m, rest, 5) == opt_str_bytes(m.module).add(record_suffix(m, rest, 6)));
            assert(record_suffix(m, rest, 6) == opt_str_bytes(m.file).add(record_suffix(m, rest, 7)));
            assert(record_suffix(m, rest, 7) == opt_u32_bytes(m.line).add(record_suffix(m, rest, 8)));
        }
    }
    let (args, pos5) = match read_str_as(data, pos, Ghost(on), Ghost(m.message), Ghost(record_suffix(m, rest, 5))) {
        Some(x) => x,
        None => return None,
    };
    let (module, pos6) = match read_opt_str_as(data, pos5, Ghost(on), Ghost(m.module), Ghost(record_suffix(m, rest, 6))) {
        Some(x) => x,
        None => return None,
    };
    let (file, pos7) = match read_opt_str_as(data, pos6, Ghost(on), Ghost(m.file), Ghost(record_suffix(m, rest, 7))) {
        Some(x) => x,
        None => return None,
    };
    let (line, _end) = match read_opt_u32_as(data, pos7, Ghost(on), Ghost(m.line), Ghost(record_suffix(m, rest, 8))) {
        Some(x) => x,
        None => return None,
    };
    Some((args, module, file, line))
}

/// Decodes a record encoded by `encode_record`. Bytes that begin with the
/// encoding of a record decode to that record; bytes that begin with a string
/// that is no level tag are refused.
pub fn decode_record(data: &[u8]) -> (r: Result<Record, CodecError>)
    ensures
        r is Ok <==> parse_record(data@) is Some,
        r matches Ok(rec) ==> rec@ == parse_record(data@).unwrap(),
        forall|m: RecordView| #[trigger] encodes_record(data@, m) ==> (r matches Ok(rec) && rec@ == m),
        forall|t: Seq<char>, rest: Seq<u8>|
            data@ == #[trigger] str_bytes(t).add(rest) && level_of_tag(t) is None ==> r is Err,
{
    let ghost ok = exists|m: RecordView| #[trigger] encodes_record(data@, m);
    let ghost m0 = choose|m: RecordView| #[trigger] encodes_record(data@, m);
    let ghost rest0 = choose|rest: Seq<u8>| data@ == #[trigger] (record_bytes(m0) + rest);
    proof {
        if ok {
            reveal(encodes_record);
            lemma_record_suffix_start(m0, rest0);
        }
    }
    let (metadata, pos4) = match read_metadata(data, Ghost(ok), Ghost(m0), Ghost(rest0)) {
        Some(x) => x,
        None => {
            proof {
                assert(!ok);
            }
            return Err(CodecError::InvalidData);
        },
    };
    let (args, module, file, line) = match read_body(data, pos4, Ghost(ok), Ghost(m0), Ghost(rest0)) {
        Some(x) => x,
        None => {
            proof {
                assert(!ok);
            }
            return Err(CodecError::InvalidData);
        },
    };
    let rec = Record { metadata: std::sync::Arc::new(metadata), args, module, file, line };
    let n: usize = data.len();
    proof {
        if ok {
            assert(rec@ == m0);
            assert(data@.len() <= u64::MAX);
            assert forall|m: RecordView| #[trigger] encodes_record(data@, m) implies rec@ == m by {
                lemma_encodes_record_unique(data@, m0, m);
            }
        }
    }
    Ok(rec)
}

/// Encoding then decoding a record gives the record back: its encoding
/// decodes to it, and to no other record.
pub proof fn lemma_record_round_trip(m: RecordView)
    requires
        record_bytes(m).len() <= u64::MAX,
    ensures
        encodes_record(record_bytes(m), m),
        forall|m2: RecordView| #[trigger] encodes_record(record_bytes(m), m2) ==> m2 == m,
{
    reveal(encodes_record);
    assert(record_bytes(m) == record_bytes(m) + Seq::<u8>::empty());
    assert forall|m2: RecordView| #[trigger] encodes_record(record_bytes(m), m2) implies m2 == m by {
        lemma_encodes_record_unique(record_bytes(m), m, m2);
    }
}

/// The encoding of a network record from field `k` on, followed by `rest`.
pub open spec fn net_suffix(m: NetRecordView, rest: Seq<u8>, k: nat) -> Seq<u8>
    decreases 9 - k,
{
    if k >= 9 {
        rest
    } else {
        let field = if k == 0 {
            str_bytes(level_tag(m.level))
        } else if k == 1 {
            str_bytes(m.target)
        } else if k == 2 {
            str_bytes(m.message)
        } else if k == 3 {
            opt_str_bytes(m.module)
        } else if k == 4 {
            opt_str_bytes(m.file)
        } else if k == 5 {
            opt_u32_bytes(m.line)
        } else if k == 6 {
            varint(m.timestamp as nat)
        } else if k == 7 {
            opt_str_bytes(m.auth_token)
        } else {
            opt_str_bytes(m.app_id)
        };
        field + net_suffix(m, rest, k + 1)
    }
}

proof fn lemma_net_suffix_start(m: NetRecordView, rest: Seq<u8>)
    ensures
        net_record_bytes(m) + rest == net_suffix(m, rest, 0),
{
    let s9 = net_suffix(m, rest, 9);
    let s8 = net_suffix(m, rest, 8);
    let s7 = net_suffix(m, rest, 7);
    let s6 = net_suffix(m, rest, 6);
    let s5 = net_suffix(m, rest, 5);
    let s4 = net_suffix(m, rest, 4);
    let s3 = net_suffix(m, rest, 3);
    let s2 = net_suffix(m, rest, 2);
    let s1 = net_suffix(m, rest, 1);
    let s0 = net_suffix(m, rest, 0);
    let a1 = str_bytes(level_tag(m.level));
    let a2 = str_bytes(m.target);
    let a3 = str_bytes(m.message);
    let a4 = opt_str_bytes(m.module);
    let a5 = opt_str_bytes(m.file);
    let a6 = opt_u32_bytes(m.line);
    let a7 = varint(m.timestamp as nat);
    let a8 = opt_str_bytes(m.auth_token);
    let a9 = opt_str_bytes(m.app_id);
    assert(s9 == rest);
    assert(s8 == a9 + s9);
    assert(s7 == a8 + s8);
    assert(s6 == a7 + s7);
    assert(s5 == a6 + s6);
    assert(s4 == a5 + s5);
    assert(s3 == a4 + s4);
    assert(s2 == a3 + s3);
    assert(s1 == a2 + s2);
    assert(s0 == a1 + s1);
    let x2 = a1 + a2;
    let x3 = x2 + a3;
    let x4 = x3 + a4;
    let x5 = x4 + a5;
    let x6 = x5 + a6;
    let x7 = x6 + a7;
    let x8 = x7 + a8;
    assert(net_record_bytes(m) == x8 + a9) by {
        reveal(net_record_bytes);
    }
    lemma_concat_associative(x8, a9, rest);
    lemma_concat_associative(x7, a8, s8);
    lemma_concat_associative(x6, a7, s7);
    lemma_concat_associative(x5, a6, s6);
    lemma_concat_associative(x4, a5, s5);
    lemma_concat_associative(x3, a4, s4);
    lemma_concat_associative(x2, a3, s3);
    lemma_concat_associative(a1, a2, s2);
}

/// Network record encodings are prefix-free.
pub proof fn lemma_net_record_unique(m1: NetRecordView, m2: NetRecordView, r1: Seq<u8>, r2: Seq<u8>)
    requires
        net_record_bytes(m1) + r1 == net_record_bytes(m2) + r2,
        (net_record_bytes(m1) + r1).len() <= u64::MAX,
    ensures
        m1 == m2,
        r1 == r2,
{
    lemma_net_suffix_start(m1, r1);
    lemma_net_suffix_start(m2, r2);
    let x = net_suffix(m1, r1, 0);
    assert(net_suffix(m1, r1, 0) == str_bytes(level_tag(m1.level)) + net_suffix(m1, r1, 1));
    assert(net_suffix(m2, r2, 0) == str_bytes(level_tag(m2.level)) + net_suffix(m2, r2, 1));
    lemma_str_unique(level_tag(m1.level), level_tag(m2.level), net_suffix(m1, r1, 1), net_suffix(m2, r2, 1));
    lemma_level_tag_injective(m1.level, m2.level);
    assert(net_suffix(m1, r1, 1) == str_bytes(m1.target) + net_suffix(m1, r1, 2));
    assert(net_suffix(m2, r2, 1) == str_bytes(m2.target) + net_suffix(m2, r2, 2));
    lemma_str_unique(m1.target, m2.target, net_suffix(m1, r1, 2), net_suffix(m2, r2, 2));
    assert(net_suffix(m1, r1, 2) == str_bytes(m1.message) + net_suffix(m1, r1, 3));
    assert(net_suffix(m2, r2, 2) == str_bytes(m2.message) + net_suffix(m2, r2, 3));
    lemma_str_unique(m1.message, m2.message, net_suffix(m1, r1, 3), net_suffix(m2, r2, 3));
    assert(net_suffix(m1, r1, 3) == opt_str_bytes(m1.module) + net_suffix(m1, r1, 4));
    assert(net_suffix(m2, r2, 3) == opt_str_bytes(m2.module) + net_suffix(m2, r2, 4));
    lemma_opt_str_unique(m1.module, m2.module, net_suffix(m1, r1, 4), net_suffix(m2, r2, 4));
    assert(net_suffix(m1, r1, 4) == opt_str_bytes(m1.file) + net_suffix(m1, r1, 5));
    assert(net_suffix(m2, r2, 4) == opt_str_bytes(m2.file) + net_suffix(m2, r2, 5));
    lemma_opt_str_unique(m1.file, m2.file, net_suffix(m1, r1, 5), net_suffix(m2, r2, 5));
    assert(net_suffix(m1, r1, 5) == opt_u32_bytes(m1.line) + net_suffix(m1, r1, 6));
    assert(net_suffix(m2, r2, 5) == opt_u32_bytes(m2.line) + net_suffix(m2, r2, 6));
    lemma_opt_u32_unique(m1.line, m2.line, net_suffix(m1, r1, 6), net_suffix(m2, r2, 6));
    assert(net_suffix(m1, r1, 6) == varint(m1.timestamp as nat) + net_suffix(m1, r1, 7));
    assert(net_suffix(m2, r2, 6) == varint(m2.timestamp as nat) + net_suffix(m2, r2, 7));
    lemma_varint_unique(m1.timestamp as nat, m2.timestamp as nat, net_suffix(m1, r1, 7), net_suffix(m2, r2, 7));
    assert(net_suffix(m1, r1, 7) == opt_str_bytes(m1.auth_token) + net_suffix(m1, r1, 8));
    assert(net_suffix(m2, r2, 7) == opt_str_bytes(m2.auth_token) + net_suffix(m2, r2, 8));
    lemma_opt_str_unique(m1.auth_token, m2.auth_token, net_suffix(m1, r1, 8), net_suffix(m2, r2, 8));
    assert(net_suffix(m1, r1, 8) == opt_str_bytes(m1.app_id) + net_suffix(m1, r1, 9));
    assert(net_suffix(m2, r2, 8) == opt_str_bytes(m2.app_id) + net_suffix(m2, r2, 9));
    lemma_opt_str_unique(m1.app_id, m2.app_id, net_suffix(m1, r1, 9), net_suffix(m2, r2, 9));
}

/// `data` begins with the encoding of the network record `m`.
#[verifier::opaque]
pub open spec fn encodes_net_record(data: Seq<u8>, m: NetRecordView) -> bool {
    exists|rest: Seq<u8>| data == #[trigger] (net_record_bytes(m) + rest)
}

proof fn lemma_encodes_net_record_unique(data: Seq<u8>, m1: NetRecordView, m2: NetRecordView)
    requires
        encodes_net_record(data, m1),
        encodes_net_record(data, m2),
        data.len() <= u64::MAX,
    ensures
        m1 == m2,
{
    reveal(encodes_net_record);
    let r1 = choose|rest: Seq<u8>| data == #[trigger] (net_record_bytes(m1) + rest);
    let r2 = choose|rest: Seq<u8>| data == #[trigger] (net_record_bytes(m2) + rest);
    lemma_net_record_unique(m1, m2, r1, r2);
}

/// The level, target and message of a network record at the start of `d`.
pub open spec fn net_head_at(d: Seq<u8>) -> Option<(Level, Seq<char>, Seq<char>, nat)> {
    match level_at(d, 0) {
        None => None,
        Some((l, p1)) => match str_at(d, p1) {
            None => None,
            Some((t, p2)) => match str_at(d, p2) {
                None => None,
                Some((msg, p3)) => Some((l, t, msg, p3)),
            },
        },
    }
}

/// The module, file and line of a network record from `pos` on.
pub open spec fn net_middle_at(d: Seq<u8>, pos: nat) -> Option<(Option<Seq<char>>, Option<Seq<char>>, Option<u32>, nat)> {
    match opt_str_at(d, pos) {
        None => None,
        Some((md, p4)) => match opt_str_at(d, p4) {
            None => None,
            Some((f, p5)) => match opt_u32_at(d, p5) {
                None => None,
                Some((l, p6)) => Some((md, f, l, p6)),
            },
        },
    }
}

/// The timestamp and credentials of a network record from `pos` on.
pub open spec fn net_tail_at(d: Seq<u8>, pos: nat) -> Option<(nat, Option<Seq<char>>, Option<Seq<char>>)> {
    match u64_at(d, pos) {
        None => None,
        Some((ts, p7)) => match opt_str_at(d, p7) {
            None => None,
            Some((a, p8)) => match opt_str_at(d, p8) {
                None => None,
                Some((ap, _)) => Some((ts, a, ap)),
            },
        },
    }
}

/// The network record that `decode_net_record` reads from `d`, if any.
pub open spec fn parse_net_record(d: Seq<u8>) -> Option<NetRecordView> {
    match net_head_at(d) {
        None => None,
        Some((level, target, message, p3)) => match net_middle_at(d, p3) {
            None => None,
            Some((module, file, line, p6)) => match net_tail_at(d, p6) {
                None => None,
                Some((ts, auth_token, app_id)) => Some(
                    NetRecordView {
                        level,
                        target,
                        message,
                        module,
                        file,
                        line,
                        timestamp: ts as u64,
                        auth_token,
                        app_id,
                    },
                ),
            },
        },
    }
}

pub open spec fn net_head_view(r: Option<(Level, String, String, usize)>) -> Option<(Level, Seq<char>, Seq<char>, nat)> {
    match r {
        Some((l, t, m, p)) => Some((l, t@, m@, p as nat)),
        None => None,
    }
}

pub open spec fn net_middle_view(r: Option<(Option<String>, Option<String>, Option<u32>, usize)>) -> Option<(Option<Seq<char>>, Option<Seq<char>>, Option<u32>, nat)> {
    match r {
        Some((md, f, l, p)) => Some((opt_view(md), opt_view(f), l, p as nat)),
        None => None,
    }
}

pub open spec fn net_tail_view(r: Option<(u64, Option<String>, Option<String>)>) -> Option<(nat, Option<Seq<char>>, Option<Seq<char>>)> {
    match r {
        Some((ts, a, ap)) => Some((ts as nat, opt_view(a), opt_view(ap))),
        None => None,
    }
}

fn read_net_head(data: &[u8], Ghost(on): Ghost<bool>, Ghost(m): Ghost<NetRecordView>, Ghost(rest): Ghost<Seq<u8>>) -> (r: Option<(Level, String, String, usize)>)
    requires
        on ==> data@ == net_suffix(m, rest, 0),
    ensures
        net_head_view(r) == net_head_at(data@),
        r matches Some((_, _, _, p)) ==> p <= data@.len(),
        on ==> (r matches Some((l, t, msg, p)) && l == m.level && t@ == m.target && msg@ == m.message
            && after(data@, p as int) == net_suffix(m, rest, 3)),
        forall|t: Seq<char>, rest: Seq<u8>|
            data@ == #[trigger] str_bytes(t).add(rest) && level_of_tag(t) is None ==> r is None,
{
    proof {
        if on {
            assert(net_suffix(m, rest, 0) == str_bytes(level_tag(m.level)).add(net_suffix(m, rest, 1)));
            assert(net_suffix(m, rest, 1) == str_bytes(m.target).add(net_suffix(m, rest, 2)));
            assert(net_suffix(m, rest, 2) == str_bytes(m.message).add(net_suffix(m, rest, 3)));
        }
    }
    let (level, pos1) = match read_first_level(data, Ghost(on), Ghost(m.level), Ghost(net_suffix(m, rest, 1))) {
        Some(x) => x,
        None => return None,
    };
    let (target, pos2) = match read_str_as(data, pos1, Ghost(on), Ghost(m.target), Ghost(net_suffix(m, rest, 2))) {
        Some(x) => x,
        None => return None,
    };
    let (message, pos3) = match read_str_as(data, pos2, Ghost(on), Ghost(m.message), Ghost(net_suffix(m, rest, 3))) {
        Some(x) => x,
        None => return None,
    };
    Some((level, target, message, pos3))
}

fn read_net_middle(data: &[u8], pos: usize, Ghost(on): Ghost<bool>, Ghost(m): Ghost<NetRecordView>, Ghost(rest): Ghost<Seq<u8>>) -> (r: Option<(Option<String>, Option<String>, Option<u32>, usize)>)
    requires
        pos <= data@.len(),
        on ==> after(data@, pos as int) == net_suffix(m, rest, 3),
    ensures
        net_middle_view(r) == net_middle_at(data@, pos as nat),
        r matches Some((_, _, _, p)) ==> pos <= p <= data@.len(),
        on ==> (r matches Some((module, file, line, p)) && opt_view(module) == m.module && opt_view(file)
            == m.file && line == m.line && after(data@, p as int) == net_suffix(m, rest, 6)),
{
    proof {
        if on {
            assert(net_suffix(m, rest, 3) == opt_str_bytes(m.module).add(net_suffix(m, rest, 4)));
            assert(net_suffix(m, rest, 4) == opt_str_bytes(m.file).add(net_suffix(m, rest, 5)));
            assert(net_suffix(m, rest, 5) == opt_u32_bytes(m.line).add(net_suffix(m, rest, 6)));
        }
    }
    let (module, pos4) = match read_opt_str_as(data, pos, Ghost(on), Ghost(m.module), Ghost(net_suffix(m, rest, 4))) {
        Some(x) => x,
        None => return None,
    };
    let (file, pos5) = match read_opt_str_as(data, pos4, Ghost(on), Ghost(m.file), Ghost(net_suffix(m, rest, 5))) {
        Some(x) => x,
        None => return None,
    };
    let (line, pos6) = match read_opt_u32_as(data, pos5, Ghost(on), Ghost(m.line), Ghost(net_suffix(m, rest, 6))) {
        Some(x) => x,
        None => return None,
    };
    Some((module, file, line, pos6))
}

fn read_net_tail(data: &[u8], pos: usize, Ghost(on): Ghost<bool>, Ghost(m): Ghost<NetRecordView>, Ghost(rest): Ghost<Seq<u8>>) -> (r: Option<(u64, Option<String>, Option<String>)>)
    requires
        pos <= data@.len(),
        on ==> after(data@, pos as int) == net_suffix(m, rest, 6),
    ensures
        net_tail_view(r) == net_tail_at(data@, pos as nat),
        on ==> (r matches Some((ts, auth, app)) && ts == m.timestamp && opt_view(auth) == m.auth_token
            && opt_view(app) == m.app_id),
{
    proof {
        if on {
            assert(net_suffix(m, rest, 6) == varint(m.timestamp as nat).add(net_suffix(m, rest, 7)));
            assert(net_suffix(m, rest, 7) == opt_str_bytes(m.auth_token).add(net_suffix(m, rest, 8)));
            assert(net_suffix(m, rest, 8) == opt_str_bytes(m.app_id).add(net_suffix(m, rest, 9)));
        }
    }
    let (ts, pos7) = match read_u64_as(data, pos, Ghost(on), Ghost(m.timestamp), Ghost(net_suffix(m, rest, 7))) {
        Some(x) => x,
        None => return None,
    };
    let (auth, pos8) = match read_opt_str_as(data, pos7, Ghost(on), Ghost(m.auth_token), Ghost(net_suffix(m, rest, 8))) {
        Some(x) => x,
        None => return None,
    };
    let (app, _end) = match read_opt_str_as(data, pos8, Ghost(on), Ghost(m.app_id), Ghost(net_suffix(m, rest, 9))) {
        Some(x) => x,
        None => return None,
    };
    Some((ts, auth, app))
}

/// Decodes a network record encoded by `encode_net_record`. Bytes that begin
/// with the encoding of a network record decode to it; bytes that begin with a
/// string that is no level tag are refused.
pub fn decode_net_record(data: &[u8]) -> (r: Result<NetRecord, CodecError>)
    ensures
        r is Ok <==> parse_net_record(data@) is Some,
        r matches Ok(n) ==> n@ == parse_net_record(data@).unwrap(),
        forall|m: NetRecordView| #[trigger] encodes_net_record(data@, m) ==> (r matches Ok(rec) && rec@ == m),
        forall|t: Seq<char>, rest: Seq<u8>|
            data@ == #[trigger] str_bytes(t).add(rest) && level_of_tag(t) is None ==> r is Err,
{
    let ghost ok = exists|m: NetRecordView| #[trigger] encodes_net_record(data@, m);
    let ghost m0 = choose|m: NetRecordView| #[trigger] encodes_net_record(data@, m);
    let ghost rest0 = choose|rest: Seq<u8>| data@ == #[trigger] (net_record_bytes(m0) + rest);
    proof {
        if ok {
            reveal(encodes_net_record);
            lemma_net_suffix_start(m0, rest0);
        }
    }
    let (level, target, message, pos3) = match read_net_head(data, Ghost(ok), Ghost(m0), Ghost(rest0)) {
        Some(x) => x,
        None => {
            proof {
                assert(!ok);
            }
            return Err(CodecError::InvalidData);
        },
    };
    let (module, file, line, pos6) = match read_net_middle(data, pos3, Ghost(ok), Ghost(m0), Ghost(rest0)) {
        Some(x) => x,
        None => {
            proof {
                assert(!ok);
            }
            return Err(CodecError::InvalidData);
        },
    };
    let (timestamp, auth_token, app_id) = match read_net_tail(data, pos6, Ghost(ok), Ghost(m0), Ghost(rest0)) {
        Some(x) => x,
        None => {
            proof {
                assert(!ok);
            }
            return Err(CodecError::InvalidData);
        },
    };
    let rec = NetRecord { level, target, message, module, file, line, timestamp, auth_token, app_id };
    let n: usize = data.len();
    proof {
        if ok {
            assert(rec@ == m0);
            assert(data@.len() <= u64::MAX);
            assert forall|m: NetRecordView| #[trigger] encodes_net_record(data@, m) implies rec@ == m by {
                lemma_encodes_net_record_unique(data@, m0, m);
            }
        }
    }
    Ok(rec)
}

/// Encoding then decoding a network record gives it back, timestamp included.
pub proof fn lemma_net_record_round_trip(m: NetRecordView)
    requires
        net_record_bytes(m).len() <= u64::MAX,
    ensures
        encodes_net_record(net_record_bytes(m), m),
        forall|m2: NetRecordView| #[trigger] encodes_net_record(net_record_bytes(m), m2) ==> m2 == m,
{
    reveal(encodes_net_record);
    assert(net_record_bytes(m) == net_record_bytes(m) + Seq::<u8>::empty());
    assert forall|m2: NetRecordView| #[trigger] encodes_net_record(net_record_bytes(m), m2) implies m2
        == m by {
        lemma_encodes_net_record_unique(net_record_bytes(m), m, m2);
    }
}

} // verus!
