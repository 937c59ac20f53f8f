//! Handshake operations (a token, an opcode and a payload) and the status payload that lists
//! the advertised apps.

use vstd::prelude::*;
use vstd::utf8::*;
use crate::text::{lemma_encode_without_nul, no_nul};
use crate::bytes::{copy_range, find_zero, has_terminator, lemma_terminator_unique, terminates_at, terminator};
use crate::osc::COMMA;

verus! {

/// Why a buffer is not a handshake operation or a status payload.
#[derive(Clone, Copy, Debug, PartialEq, Eq, Structural)]
pub enum HsOpError {
    /// The buffer ends before the opcode, or before the two reserved bytes that precede the
    /// payload.
    TruncatedMessage,
    /// The buffer does not start with the handshake token (or, for a status payload, the status
    /// marker).
    InvalidHeader,
    /// The byte after the token is not a comma.
    InvalidTypeTag,
    /// A status payload holds a dangling partial app record or a field that is not UTF-8.
    MalformedEntry,
}

/// Length of the fixed header: the 8-byte token, a comma, the opcode and two reserved bytes.
pub const HEADER_LEN: usize = 12;

/// Length below which a buffer cannot hold the token, the comma and the opcode.
pub const MIN_LEN: usize = 10;

/// The literal token `#hsop` padded with zero bytes to 8 bytes.
pub open spec fn header_token() -> Seq<u8> {
    seq![0x23u8, 0x68u8, 0x73u8, 0x6Fu8, 0x70u8, 0u8, 0u8, 0u8]
}

fn header_token_bytes() -> (r: Vec<u8>)
    ensures
        r@ == header_token(),
{
    let mut r: Vec<u8> = Vec::new();
    r.push(0x23u8);
    r.push(0x68u8);
    r.push(0x73u8);
    r.push(0x6Fu8);
    r.push(0x70u8);
    r.push(0u8);
    r.push(0u8);
    r.push(0u8);
    assert(r@ =~= header_token());
    r
}

/// A handshake operation: an opcode and an opaque payload.
pub struct HsOp {
    pub id: u8,
    pub data: Vec<u8>,
}

impl View for HsOp {
    type V = (u8, Seq<u8>);

    open spec fn view(&self) -> Self::V {
        (self.id, self.data@)
    }
}

/// What parsing `b` as a handshake operation gives, as (opcode, payload).
pub open spec fn hsop_parse_spec(b: Seq<u8>) -> Result<(u8, Seq<u8>), HsOpError> {
    if b.len() < MIN_LEN {
        Err(HsOpError::TruncatedMessage)
    } else if b.subrange(0, 8) != header_token() {
        Err(HsOpError::InvalidHeader)
    } else if b[8] != COMMA {
        Err(HsOpError::InvalidTypeTag)
    } else if b.len() < HEADER_LEN {
        Err(HsOpError::TruncatedMessage)
    } else {
        Ok((b[9], b.subrange(HEADER_LEN as int, b.len() as int)))
    }
}

/// The wire bytes of an operation: the token, a comma, the opcode, two zero bytes, the payload.
pub open spec fn hsop_serialize_spec(op: (u8, Seq<u8>)) -> Seq<u8> {
    header_token() + seq![COMMA, op.0, 0u8, 0u8] + op.1
}

impl HsOp {
    /// Parses one handshake operation from `data`.
    pub fn new(data: &Vec<u8>) -> (r: Result<HsOp, HsOpError>)
        ensures
            match r {
                Ok(op) => hsop_parse_spec(data@) == Ok::<_, HsOpError>(op@),
                Err(e) => hsop_parse_spec(data@) == Err::<(u8, Seq<u8>), _>(e),
            },
    {
        if data.len() < MIN_LEN {
            return Err(HsOpError::TruncatedMessage);
        }
        let token = header_token_bytes();
        let mut k: usize = 0;
        while k < 8
            invariant
                k <= 8,
                data@.len() >= MIN_LEN,
                token@ == header_token(),
                forall|j: int| 0 <= j < k ==> data@[j] == token@[j],
            decreases 8 - k,
        {
            if data[k] != token[k] {
                assert(data@.subrange(0, 8)[k as int] != header_token()[k as int]);
                return Err(HsOpError::InvalidHeader);
            }
            k = k + 1;
        }
        assert(data@.subrange(0, 8) =~= header_token());
        if data[8] != COMMA {
            return Err(HsOpError::InvalidTypeTag);
        }
        if data.len() < HEADER_LEN {
            return Err(HsOpError::TruncatedMessage);
        }
        Ok(HsOp { id: data[9], data: copy_range(data, HEADER_LEN, data.len()) })
    }

    /// The wire form of this operation.
    pub fn serialize(&self) -> (r: Vec<u8>)
        ensures
            r@ == hsop_serialize_spec(self@),
    {
        let mut bytes = header_token_bytes();
        bytes.push(COMMA);
        bytes.push(self.id);
        bytes.push(0u8);
        bytes.push(0u8);
        let ghost head = bytes@;
        let mut k: usize = 0;
        while k < self.data.len()
            invariant
                k <= self.data@.len(),
                bytes@ == head + self.data@.subrange(0, k as int),
            decreases self.data@.len() - k,
        {
            bytes.push(self.data[k]);
            k = k + 1;
        }
        assert(bytes@ =~= hsop_serialize_spec(self@));
        bytes
    }
}

/// Serializing an operation and parsing the bytes gives the operation back.
pub proof fn lemma_hsop_round_trip(op: HsOp)
    ensures
        hsop_parse_spec(hsop_serialize_spec(op@)) == Ok::<_, HsOpError>(op@),
{
    let b = hsop_serialize_spec(op@);
    assert(b.subrange(0, 8) =~= header_token());
    assert(b.subrange(HEADER_LEN as int, b.len() as int) =~= op@.1);
}

/// Every buffer too short to hold the token, the comma and the opcode is refused as truncated.
pub proof fn lemma_hsop_short_buffer(b: Seq<u8>)
    requires
        b.len() < MIN_LEN,
    ensures
        hsop_parse_spec(b) == Err::<(u8, Seq<u8>), _>(HsOpError::TruncatedMessage),
{
}

/// Every buffer long enough to hold the token that does not start with it is refused with
/// `InvalidHeader`.
pub proof fn lemma_hsop_bad_token(b: Seq<u8>)
    requires
        b.len() >= MIN_LEN,
        b.subrange(0, 8) != header_token(),
    ensures
        hsop_parse_spec(b) == Err::<(u8, Seq<u8>), _>(HsOpError::InvalidHeader),
{
}

/// Every buffer long enough to hold the token that starts with it but has no comma after it is
/// refused with `InvalidTypeTag`.
pub proof fn lemma_hsop_bad_type_tag(b: Seq<u8>)
    requires
        b.len() >= MIN_LEN,
        b.subrange(0, 8) == header_token(),
        b[8] != COMMA,
    ensures
        hsop_parse_spec(b) == Err::<(u8, Seq<u8>), _>(HsOpError::InvalidTypeTag),
{
}

/// One advertised sub-application.
pub struct AppInfo {
    pub id: String,
    pub friendly_name: String,
    pub version: String,
}

impl View for AppInfo {
    type V = (Seq<char>, Seq<char>, Seq<char>);

    open spec fn view(&self) -> Self::V {
        (self.id@, self.friendly_name@, self.version@)
    }
}

/// The roster of apps and the trailing bytes carried by a status operation.
///
/// On the wire the roster cannot be told apart from trailing bytes that hold zero bytes, so
/// the trailing bytes hold none: parsing reads app records while the rest holds a zero byte,
/// takes a rest without any as the trailing bytes, and refuses a rest with only one or two
/// terminators as a dangling partial record.
pub struct HsStatus {
    pub apps: Vec<AppInfo>,
    pub additional_data: Vec<u8>,
}

impl View for HsStatus {
    type V = (Seq<(Seq<char>, Seq<char>, Seq<char>)>, Seq<u8>);

    open spec fn view(&self) -> Self::V {
        (self.apps@.map_values(|a: AppInfo| a@), self.additional_data@)
    }
}

/// The first byte of every status payload.
pub const STATUS_MARKER: u8 = 0x00;

/// A text field on the wire: its UTF-8 bytes and a zero byte.
pub open spec fn field_bytes(s: Seq<char>) -> Seq<u8> {
    encode_utf8(s).push(0u8)
}

/// An app record on the wire: its id, friendly name and version as text fields.
pub open spec fn app_bytes(a: (Seq<char>, Seq<char>, Seq<char>)) -> Seq<u8> {
    field_bytes(a.0) + field_bytes(a.1) + field_bytes(a.2)
}

/// The records of `apps` in order, with nothing between them.
pub open spec fn apps_bytes(apps: Seq<(Seq<char>, Seq<char>, Seq<char>)>) -> Seq<u8>
    decreases apps.len(),
{
    if apps.len() == 0 {
        Seq::empty()
    } else {
        app_bytes(apps[0]) + apps_bytes(apps.drop_first())
    }
}

/// The wire bytes of a status: the marker, each app's three fields in order, the trailing bytes.
pub open spec fn status_serialize_spec(s: (Seq<(Seq<char>, Seq<char>, Seq<char>)>, Seq<u8>)) -> Seq<u8> {
    seq![STATUS_MARKER] + apps_bytes(s.0) + s.1
}

fn push_field(out: &mut Vec<u8>, s: &String)
    ensures
        final(out)@ == old(out)@ + field_bytes(s@),
{
    let bytes = s.as_str().as_bytes();
    let mut k: usize = 0;
    while k < bytes.len()
        invariant
            k <= bytes@.len(),
            bytes@ == encode_utf8(s@),
            out@ == old(out)@ + bytes@.subrange(0, k as int),
        decreases bytes@.len() - k,
    {
        out.push(bytes[k]);
        k = k + 1;
    }
    out.push(0u8);
    assert(out@ =~= old(out)@ + field_bytes(s@));
}

impl HsStatus {
    /// The wire form of this status payload.
    pub fn serialize(&self) -> (r: Vec<u8>)
        ensures
            r@ == status_serialize_spec(self@),
    {
        let ghost apps = self@.0;
        let mut out: Vec<u8> = Vec::new();
        out.push(STATUS_MARKER);
        let n = self.apps.len();
        let mut k: usize = 0;
        assert(apps.subrange(0, n as int) =~= apps);
        assert(out@ == seq![STATUS_MARKER]);
        while k < n
            invariant
                k <= n == self.apps@.len() == apps.len(),
                apps == self@.0,
                out@ + apps_bytes(apps.subrange(k as int, n as int)) == seq![STATUS_MARKER]
                    + apps_bytes(apps),
            decreases n - k,
        {
            let ghost before = out@;
            let app = &self.apps[k];
            push_field(&mut out, &app.id);
            push_field(&mut out, &app.friendly_name);
            push_field(&mut out, &app.version);
            proof {
                let rest = apps.subrange(k as int, n as int);
                assert(rest[0] == app@);
                assert(rest.drop_first() =~= apps.subrange(k + 1, n as int));
                assert(out@ =~= before + app_bytes(app@));
                assert(out@ + apps_bytes(apps.subrange(k + 1, n as int)) =~= before
                    + apps_bytes(rest));
            }
            k = k + 1;
        }
        assert(apps.subrange(n as int, n as int) =~= Seq::<(Seq<char>, Seq<char>, Seq<char>)>::empty());
        assert(out@ =~= seq![STATUS_MARKER] + apps_bytes(apps));
        let ghost head = out@;
        let mut k: usize = 0;
        while k < self.additional_data.len()
            invariant
                k <= self.additional_data@.len(),
                out@ == head + self.additional_data@.subrange(0, k as int),
            decreases self.additional_data@.len() - k,
        {
            out.push(self.additional_data[k]);
            k = k + 1;
        }
        assert(out@ =~= status_serialize_spec(self@));
        out
    }
}


/// What parsing the bytes after the status marker gives, as (apps, trailing bytes): app records
/// while the rest holds a zero byte, then the rest as the trailing bytes.
pub open spec fn entries_spec(r: Seq<u8>) -> Result<
    (Seq<(Seq<char>, Seq<char>, Seq<char>)>, Seq<u8>),
    HsOpError,
>
    decreases r.len(),
{
    if !has_terminator(r) {
        Ok((Seq::empty(), r))
    } else {
        let z1 = terminator(r);
        let r1 = r.subrange(z1 + 1, r.len() as int);
        if !has_terminator(r1) {
            Err(HsOpError::MalformedEntry)
        } else {
            let z2 = terminator(r1);
            let r2 = r1.subrange(z2 + 1, r1.len() as int);
            if !has_terminator(r2) {
                Err(HsOpError::MalformedEntry)
            } else {
                let z3 = terminator(r2);
                let r3 = r2.subrange(z3 + 1, r2.len() as int);
                let f1 = r.subrange(0, z1);
                let f2 = r1.subrange(0, z2);
                let f3 = r2.subrange(0, z3);
                if !(valid_utf8(f1) && valid_utf8(f2) && valid_utf8(f3)) {
                    Err(HsOpError::MalformedEntry)
                } else {
                    with_apps(
                        seq![(decode_utf8(f1), decode_utf8(f2), decode_utf8(f3))],
                        entries_spec(r3),
                    )
                }
            }
        }
    }
}

/// `r` with `apps` put in front of its apps.
pub open spec fn with_apps(
    apps: Seq<(Seq<char>, Seq<char>, Seq<char>)>,
    r: Result<(Seq<(Seq<char>, Seq<char>, Seq<char>)>, Seq<u8>), HsOpError>,
) -> Result<(Seq<(Seq<char>, Seq<char>, Seq<char>)>, Seq<u8>), HsOpError> {
    match r {
        Ok((a, extra)) => Ok((apps + a, extra)),
        Err(e) => Err(e),
    }
}

/// What parsing `b` as a status payload gives, as (apps, trailing bytes).
pub open spec fn status_parse_spec(b: Seq<u8>) -> Result<
    (Seq<(Seq<char>, Seq<char>, Seq<char>)>, Seq<u8>),
    HsOpError,
> {
    if b.len() == 0 {
        Err(HsOpError::TruncatedMessage)
    } else if b[0] != STATUS_MARKER {
        Err(HsOpError::InvalidHeader)
    } else {
        entries_spec(b.subrange(1, b.len() as int))
    }
}

fn read_text(data: &Vec<u8>, from: usize, to: usize) -> (r: Option<String>)
    requires
        from <= to <= data@.len(),
    ensures
        match r {
            Some(s) => valid_utf8(data@.subrange(from as int, to as int)) && s@ == decode_utf8(
                data@.subrange(from as int, to as int),
            ),
            None => !valid_utf8(data@.subrange(from as int, to as int)),
        },
{
    crate::text::utf8_string(copy_range(data, from, to))
}

/// Reads the app record that starts at `pos`, if the rest of `data` holds a zero byte.
fn read_record(data: &Vec<u8>, pos: usize) -> (r: Result<Option<(AppInfo, usize)>, HsOpError>)
    requires
        pos <= data@.len(),
    ensures
        match r {
            Ok(None) => !has_terminator(data@.subrange(pos as int, data@.len() as int)),
            Ok(Some((app, next))) => pos < next <= data@.len() && entries_spec(
                data@.subrange(pos as int, data@.len() as int),
            ) == with_apps(seq![app@], entries_spec(data@.subrange(next as int, data@.len() as int))),
            Err(e) => entries_spec(data@.subrange(pos as int, data@.len() as int)) == Err::<
                (Seq<(Seq<char>, Seq<char>, Seq<char>)>, Seq<u8>),
                _,
            >(e),
        },
{
    let n = data.len();
    let ghost r = data@.subrange(pos as int, n as int);
    let z1 = find_zero(data, pos);
    if z1 == n {
        return Ok(None);
    }
    let ghost r1 = r.subrange(z1 - pos + 1, r.len() as int);
    assert(r1 =~= data@.subrange(z1 + 1, n as int));
    let z2 = find_zero(data, z1 + 1);
    if z2 == n {
        return Err(HsOpError::MalformedEntry);
    }
    let ghost r2 = r1.subrange(z2 - z1, r1.len() as int);
    assert(r2 =~= data@.subrange(z2 + 1, n as int));
    let z3 = find_zero(data, z2 + 1);
    if z3 == n {
        return Err(HsOpError::MalformedEntry);
    }
    let ghost r3 = r2.subrange(z3 - z2, r2.len() as int);
    assert(r3 =~= data@.subrange(z3 + 1, n as int));
    assert(r.subrange(0, z1 - pos) =~= data@.subrange(pos as int, z1 as int));
    assert(r1.subrange(0, z2 - z1 - 1) =~= data@.subrange(z1 + 1, z2 as int));
    assert(r2.subrange(0, z3 - z2 - 1) =~= data@.subrange(z2 + 1, z3 as int));
    let id = match read_text(data, pos, z1) {
        Some(s) => s,
        None => {
            return Err(HsOpError::MalformedEntry);
        },
    };
    let friendly_name = match read_text(data, z1 + 1, z2) {
        Some(s) => s,
        None => {
            return Err(HsOpError::MalformedEntry);
        },
    };
    let version = match read_text(data, z2 + 1, z3) {
        Some(s) => s,
        None => {
            return Err(HsOpError::MalformedEntry);
        },
    };
    Ok(Some((AppInfo { id, friendly_name, version }, z3 + 1)))
}

impl HsStatus {
    /// Parses a status payload from `data`.
    pub fn new(data: &Vec<u8>) -> (r: Result<HsStatus, HsOpError>)
        ensures
            match r {
                Ok(s) => status_parse_spec(data@) == Ok::<_, HsOpError>(s@),
                Err(e) => status_parse_spec(data@) == Err::<
                    (Seq<(Seq<char>, Seq<char>, Seq<char>)>, Seq<u8>),
                    _,
                >(e),
            },
    {
        let n = data.len();
        if n == 0 {
            return Err(HsOpError::TruncatedMessage);
        }
        if data[0] != STATUS_MARKER {
            return Err(HsOpError::InvalidHeader);
        }
        let mut apps: Vec<AppInfo> = Vec::new();
        let mut pos: usize = 1;
        assert(apps@.map_values(|a: AppInfo| a@) =~= Seq::empty());
        loop
            invariant
                1 <= pos <= n == data@.len(),
                status_parse_spec(data@) == with_apps(
                    apps@.map_values(|a: AppInfo| a@),
                    entries_spec(data@.subrange(pos as int, n as int)),
                ),
            decreases n - pos,
        {
            let ghost prefix = apps@.map_values(|a: AppInfo| a@);
            match read_record(data, pos) {
                Err(e) => {
                    return Err(e);
                },
                Ok(None) => {
                    let extra = copy_range(data, pos, n);
                    assert(prefix + Seq::empty() =~= prefix);
                    return Ok(HsStatus { apps, additional_data: extra });
                },
                Ok(Some((app, next))) => {
                    let ghost entry = app@;
                    apps.push(app);
                    proof {
                        assert(apps@.map_values(|a: AppInfo| a@) =~= prefix.push(entry));
                        match entries_spec(data@.subrange(next as int, n as int)) {
                            Ok((a, extra)) => {
                                assert(prefix + (seq![entry] + a) =~= prefix.push(entry) + a);
                            },
                            Err(e) => {},
                        }
                    }
                    pos = next;
                },
            }
        }
    }
}

/// A status that survives a trip through its wire form: no NUL character in any text field and
/// no zero byte in the trailing bytes.
pub open spec fn status_well_formed(
    apps: Seq<(Seq<char>, Seq<char>, Seq<char>)>,
    extra: Seq<u8>,
) -> bool {
    &&& forall|i: int|
        0 <= i < apps.len() ==> no_nul(#[trigger] apps[i].0) && no_nul(apps[i].1) && no_nul(
            apps[i].2,
        )
    &&& forall|j: int| 0 <= j < extra.len() ==> extra[j] != 0
}

proof fn lemma_field_split(t: Seq<char>, tail: Seq<u8>)
    requires
        no_nul(t),
    ensures
        has_terminator(field_bytes(t) + tail),
        terminator(field_bytes(t) + tail) == encode_utf8(t).len(),
        (field_bytes(t) + tail).subrange(0, encode_utf8(t).len() as int) == encode_utf8(t),
        (field_bytes(t) + tail).subrange(
            encode_utf8(t).len() as int + 1,
            (field_bytes(t) + tail).len() as int,
        ) == tail,
{
    let e = encode_utf8(t);
    let r = field_bytes(t) + tail;
    lemma_encode_without_nul(t);
    assert(terminates_at(r, e.len() as int)) by {
        assert forall|j: int| 0 <= j < e.len() implies r[j] != 0 by {
            assert(r[j] == e[j]);
        }
    }
    lemma_terminator_unique(r, e.len() as int);
    assert(r.subrange(0, e.len() as int) =~= e);
    assert(r.subrange(e.len() as int + 1, r.len() as int) =~= tail);
}

proof fn lemma_entries_step(a: (Seq<char>, Seq<char>, Seq<char>), tail: Seq<u8>)
    requires
        no_nul(a.0),
        no_nul(a.1),
        no_nul(a.2),
    ensures
        entries_spec(app_bytes(a) + tail) == with_apps(seq![a], entries_spec(tail)),
{
    let r = app_bytes(a) + tail;
    let r2 = field_bytes(a.2) + tail;
    let r1 = field_bytes(a.1) + r2;
    assert(r =~= field_bytes(a.0) + r1);
    lemma_field_split(a.0, r1);
    lemma_field_split(a.1, r2);
    lemma_field_split(a.2, tail);
    encode_utf8_valid_utf8(a.0);
    encode_utf8_valid_utf8(a.1);
    encode_utf8_valid_utf8(a.2);
    encode_utf8_decode_utf8(a.0);
    encode_utf8_decode_utf8(a.1);
    encode_utf8_decode_utf8(a.2);
}

proof fn lemma_entries_round_trip(apps: Seq<(Seq<char>, Seq<char>, Seq<char>)>, extra: Seq<u8>)
    requires
        status_well_formed(apps, extra),
    ensures
        entries_spec(apps_bytes(apps) + extra) == Ok::<_, HsOpError>((apps, extra)),
    decreases apps.len(),
{
    let r = apps_bytes(apps) + extra;
    if apps.len() == 0 {
        assert(r =~= extra);
        if has_terminator(r) {
            assert(r[terminator(r)] == 0);
        }
        assert(Seq::<(Seq<char>, Seq<char>, Seq<char>)>::empty() =~= apps);
    } else {
        let a = apps[0];
        let rest = apps.drop_first();
        assert(status_well_formed(rest, extra)) by {
            assert forall|i: int| 0 <= i < rest.len() implies no_nul(#[trigger] rest[i].0) && no_nul(
                rest[i].1,
            ) && no_nul(rest[i].2) by {
                assert(rest[i] == apps[i + 1]);
                assert(no_nul(apps[i + 1].0) && no_nul(apps[i + 1].1) && no_nul(apps[i + 1].2));
            }
        }
        lemma_entries_round_trip(rest, extra);
        assert(no_nul(apps[0].0));
        let tail = apps_bytes(rest) + extra;
        assert(r =~= app_bytes(a) + tail);
        lemma_entries_step(a, tail);
        assert(seq![a] + rest =~= apps);
    }
}

/// Parsing the wire form of a status whose text fields hold no NUL character and whose
/// trailing bytes hold no zero byte gives the status back.
pub proof fn lemma_status_round_trip(s: HsStatus)
    requires
        status_well_formed(s@.0, s@.1),
    ensures
        status_parse_spec(status_serialize_spec(s@)) == Ok::<_, HsOpError>(s@),
{
    let b = status_serialize_spec(s@);
    lemma_entries_round_trip(s@.0, s@.1);
    assert(b.subrange(1, b.len() as int) =~= apps_bytes(s@.0) + s@.1);
}

} // verus!
