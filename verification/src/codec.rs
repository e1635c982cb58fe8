use vstd::prelude::*;

use crate::frame::{
    FrameModel, HeaderRewrite, HeaderRewriteModel, MappingConfig, MappingModel, ProtClose,
    ProtCreate, ProtData, ProtFrame, ProtMapping, ProtToken, ProxyError, header_views,
    mapping_views, spec_mode_byte, spec_mode_of_byte, KIND_CLOSE, KIND_CREATE, KIND_DATA,
    KIND_MAPPING, KIND_TOKEN, MAX_PAYLOAD, MAX_TEXT,
};

verus! {

// ---------------------------------------------------------------------------
// Big-endian integer fields
// ---------------------------------------------------------------------------

/// The two big-endian bytes of a 16-bit value.
pub open spec fn enc_u16(v: u16) -> Seq<u8> {
    seq![((v >> 8) & 0xFF) as u8, (v & 0xFF) as u8]
}

/// The three big-endian bytes of a 24-bit value (the top byte of `v` is not
/// written; callers keep `v` under 2^24).
pub open spec fn enc_u24(v: u32) -> Seq<u8> {
    seq![((v >> 16) & 0xFF) as u8, ((v >> 8) & 0xFF) as u8, (v & 0xFF) as u8]
}

/// The four big-endian bytes of a 32-bit value.
pub open spec fn enc_u32(v: u32) -> Seq<u8> {
    seq![
        ((v >> 24) & 0xFF) as u8,
        ((v >> 16) & 0xFF) as u8,
        ((v >> 8) & 0xFF) as u8,
        (v & 0xFF) as u8,
    ]
}

/// The 16-bit value whose big-endian bytes stand at `s[i]`, `s[i+1]`.
pub open spec fn u16_at(s: Seq<u8>, i: int) -> u16
    recommends
        0 <= i,
        i + 2 <= s.len(),
{
    (s[i] as u16) << 8 | (s[i + 1] as u16)
}

/// The 24-bit value whose big-endian bytes stand at `s[i] .. s[i+3]`.
pub open spec fn u24_at(s: Seq<u8>, i: int) -> u32
    recommends
        0 <= i,
        i + 3 <= s.len(),
{
    (s[i] as u32) << 16 | (s[i + 1] as u32) << 8 | (s[i + 2] as u32)
}

/// The 32-bit value whose big-endian bytes stand at `s[i] .. s[i+4]`.
pub open spec fn u32_at(s: Seq<u8>, i: int) -> u32
    recommends
        0 <= i,
        i + 4 <= s.len(),
{
    (s[i] as u32) << 24 | (s[i + 1] as u32) << 16 | (s[i + 2] as u32) << 8 | (s[i + 3] as u32)
}

/// Appends the two big-endian bytes of `v`.
fn push_u16(buf: &mut Vec<u8>, v: u16)
    ensures
        final(buf)@ == old(buf)@ + enc_u16(v),
{
    buf.push(((v >> 8) & 0xFF) as u8);
    buf.push((v & 0xFF) as u8);
    assert(buf@ =~= old(buf)@ + enc_u16(v));
}

/// Appends the three big-endian bytes of `v`.
fn push_u24(buf: &mut Vec<u8>, v: u32)
    requires
        v < 0x1000000,
    ensures
        final(buf)@ == old(buf)@ + enc_u24(v),
{
    buf.push(((v >> 16) & 0xFF) as u8);
    buf.push(((v >> 8) & 0xFF) as u8);
    buf.push((v & 0xFF) as u8);
    assert(buf@ =~= old(buf)@ + enc_u24(v));
}

/// Appends the four big-endian bytes of `v`.
fn push_u32(buf: &mut Vec<u8>, v: u32)
    ensures
        final(buf)@ == old(buf)@ + enc_u32(v),
{
    buf.push(((v >> 24) & 0xFF) as u8);
    buf.push(((v >> 16) & 0xFF) as u8);
    buf.push(((v >> 8) & 0xFF) as u8);
    buf.push((v & 0xFF) as u8);
    assert(buf@ =~= old(buf)@ + enc_u32(v));
}

/// Reads the 16-bit big-endian value at `i`.
fn read_u16(buf: &Vec<u8>, i: usize) -> (r: u16)
    requires
        i + 2 <= buf@.len(),
    ensures
        r == u16_at(buf@, i as int),
{
    let n: usize = buf.len();
    assert(i + 2 <= n);
    (buf[i] as u16) << 8 | (buf[i + 1] as u16)
}

/// Reads the 24-bit big-endian value at `i`.
fn read_u24(buf: &Vec<u8>, i: usize) -> (r: u32)
    requires
        i + 3 <= buf@.len(),
    ensures
        r == u24_at(buf@, i as int),
{
    let n: usize = buf.len();
    assert(i + 3 <= n);
    (buf[i] as u32) << 16 | (buf[i + 1] as u32) << 8 | (buf[i + 2] as u32)
}

/// Reads the 32-bit big-endian value at `i`.
fn read_u32(buf: &Vec<u8>, i: usize) -> (r: u32)
    requires
        i + 4 <= buf@.len(),
    ensures
        r == u32_at(buf@, i as int),
{
    let n: usize = buf.len();
    assert(i + 4 <= n);
    (buf[i] as u32) << 24 | (buf[i + 1] as u32) << 16 | (buf[i + 2] as u32) << 8 | (buf[i
        + 3] as u32)
}

/// Appends the bytes of `s`.
pub fn append_bytes(buf: &mut Vec<u8>, s: &Vec<u8>)
    ensures
        final(buf)@ == old(buf)@ + s@,
{
    let mut i: usize = 0;
    while i < s.len()
        invariant
            0 <= i <= s.len(),
            buf@ == old(buf)@ + s@.take(i as int),
        decreases s.len() - i,
    {
        buf.push(s[i]);
        assert(buf@ =~= old(buf)@ + s@.take(i + 1 as int));
        i = i + 1;
    }
    assert(s@.take(s.len() as int) =~= s@);
}

/// The bytes of `buf` from `from` (inclusive) to `to` (exclusive).
pub fn copy_range(buf: &Vec<u8>, from: usize, to: usize) -> (r: Vec<u8>)
    requires
        from <= to <= buf@.len(),
    ensures
        r@ == buf@.subrange(from as int, to as int),
{
    let mut out: Vec<u8> = Vec::new();
    let mut i: usize = from;
    while i < to
        invariant
            from <= i <= to <= buf@.len(),
            out@ == buf@.subrange(from as int, i as int),
        decreases to - i,
    {
        out.push(buf[i]);
        assert(out@ =~= buf@.subrange(from as int, i + 1 as int));
        i = i + 1;
    }
    out
}

// ---------------------------------------------------------------------------
// Spec-level encoding
// ---------------------------------------------------------------------------

/// Text fits its 16-bit length prefix.
pub open spec fn text_ok(s: Seq<u8>) -> bool {
    s.len() <= MAX_TEXT
}

/// A length-prefixed string: 16-bit big-endian byte count, then the bytes.
pub open spec fn enc_text(s: Seq<u8>) -> Seq<u8>
    recommends
        text_ok(s),
{
    enc_u16(s.len() as u16) + s
}

/// An optional string: a presence byte, then the string if present.
pub open spec fn enc_opt_text(d: Option<Seq<u8>>) -> Seq<u8> {
    match d {
        None => seq![0u8],
        Some(t) => seq![1u8] + enc_text(t),
    }
}

/// One header rewrite rule: key then value.
pub open spec fn enc_header_rule(h: HeaderRewriteModel) -> Seq<u8> {
    enc_text(h.key) + enc_text(h.value)
}

/// Header rewrite rules, in order.
pub open spec fn enc_header_rules(hs: Seq<HeaderRewriteModel>) -> Seq<u8>
    decreases hs.len(),
{
    if hs.len() == 0 {
        Seq::empty()
    } else {
        enc_header_rule(hs[0]) + enc_header_rules(hs.skip(1))
    }
}

/// One mapping entry: name, domain, optional local address, mode byte,
/// header-rule count, header rules.
pub open spec fn enc_entry(m: MappingModel) -> Seq<u8> {
    enc_text(m.name) + enc_text(m.domain) + enc_opt_text(m.local_addr) + seq![
        spec_mode_byte(m.mode),
    ] + enc_u16(m.headers.len() as u16) + enc_header_rules(m.headers)
}

/// Mapping entries, in order.
pub open spec fn enc_entries(ms: Seq<MappingModel>) -> Seq<u8>
    decreases ms.len(),
{
    if ms.len() == 0 {
        Seq::empty()
    } else {
        enc_entry(ms[0]) + enc_entries(ms.skip(1))
    }
}

/// The payload bytes of a frame.
pub open spec fn spec_payload(f: FrameModel) -> Seq<u8> {
    match f {
        FrameModel::Token { username, password, .. } => enc_text(username) + enc_text(password),
        FrameModel::Mapping { mappings, .. } => enc_u16(mappings.len() as u16) + enc_entries(
            mappings,
        ),
        FrameModel::Create { domain, .. } => enc_opt_text(domain),
        FrameModel::Data { data, .. } => data,
        FrameModel::Close { reason, .. } => enc_text(reason),
    }
}

/// One header rewrite rule fits its length prefixes.
pub open spec fn header_rule_ok(h: HeaderRewriteModel) -> bool {
    text_ok(h.key) && text_ok(h.value)
}

/// One mapping entry fits all its length prefixes.
pub open spec fn entry_ok(m: MappingModel) -> bool {
    &&& text_ok(m.name)
    &&& text_ok(m.domain)
    &&& (m.local_addr matches Some(a) ==> text_ok(a))
    &&& m.headers.len() <= MAX_TEXT
    &&& forall|i: int| 0 <= i < m.headers.len() ==> header_rule_ok(#[trigger] m.headers[i])
}

/// Every piece of text and every count in the frame fits its length prefix.
pub open spec fn texts_ok(f: FrameModel) -> bool {
    match f {
        FrameModel::Token { username, password, .. } => text_ok(username) && text_ok(password),
        FrameModel::Mapping { mappings, .. } => mappings.len() <= MAX_TEXT && forall|i: int|
            0 <= i < mappings.len() ==> entry_ok(#[trigger] mappings[i]),
        FrameModel::Create { domain, .. } => domain matches Some(d) ==> text_ok(d),
        FrameModel::Data { .. } => true,
        FrameModel::Close { reason, .. } => text_ok(reason),
    }
}

/// The frame can be written: its texts fit, and the payload fits the 24-bit
/// length field.
pub open spec fn encodable(f: FrameModel) -> bool {
    texts_ok(f) && spec_payload(f).len() <= MAX_PAYLOAD
}

/// The wire bytes of a frame: 8-byte header (kind, flag 0, payload length,
/// substream identifier), then the payload.
pub open spec fn spec_encode(f: FrameModel) -> Seq<u8>
    recommends
        encodable(f),
{
    seq![f.kind_byte(), 0u8] + enc_u24(spec_payload(f).len() as u32) + enc_u32(f.sock_map())
        + spec_payload(f)
}

// ---------------------------------------------------------------------------
// Executable encoding
// ---------------------------------------------------------------------------

/// Appends one length-prefixed string.
fn push_text(buf: &mut Vec<u8>, s: &Vec<u8>)
    requires
        s@.len() <= MAX_TEXT,
    ensures
        final(buf)@ == old(buf)@ + enc_text(s@),
{
    push_u16(buf, s.len() as u16);
    append_bytes(buf, s);
    assert(buf@ =~= old(buf)@ + enc_text(s@));
}

/// Whether one entry fits all its length prefixes.
fn check_entry(m: &MappingConfig) -> (b: bool)
    ensures
        b == entry_ok(m@),
{
    if m.name.len() > MAX_TEXT {
        return false;
    }
    if m.domain.len() > MAX_TEXT {
        return false;
    }
    match &m.local_addr {
        Some(a) => {
            if a.len() > MAX_TEXT {
                return false;
            }
        },
        None => {},
    }
    if m.headers.len() > MAX_TEXT {
        return false;
    }
    let mut i: usize = 0;
    while i < m.headers.len()
        invariant
            0 <= i <= m.headers.len(),
            forall|j: int| 0 <= j < i ==> header_rule_ok(#[trigger] m@.headers[j]),
            text_ok(m@.name),
            text_ok(m@.domain),
            m@.local_addr matches Some(a) ==> text_ok(a),
            m@.headers.len() <= MAX_TEXT,
        decreases m.headers.len() - i,
    {
        if m.headers[i].key.len() > MAX_TEXT || m.headers[i].value.len() > MAX_TEXT {
            assert(!header_rule_ok(m@.headers[i as int]));
            return false;
        }
        assert(header_rule_ok(m@.headers[i as int]));
        i = i + 1;
    }
    true
}

/// Whether every entry fits.
fn check_entries(ms: &Vec<MappingConfig>) -> (b: bool)
    ensures
        b == forall|i: int|
            0 <= i < mapping_views(ms@).len() ==> entry_ok(#[trigger] mapping_views(ms@)[i]),
{
    let mut i: usize = 0;
    while i < ms.len()
        invariant
            0 <= i <= ms.len(),
            forall|j: int| 0 <= j < i ==> entry_ok(#[trigger] mapping_views(ms@)[j]),
        decreases ms.len() - i,
    {
        if !check_entry(&ms[i]) {
            assert(!entry_ok(mapping_views(ms@)[i as int]));
            return false;
        }
        assert(entry_ok(mapping_views(ms@)[i as int]));
        i = i + 1;
    }
    true
}

/// Appends the header rules of `hs` from index `i` on.
fn encode_header_rules_from(hs: &Vec<HeaderRewrite>, i: usize, out: &mut Vec<u8>)
    requires
        i <= hs@.len(),
        forall|j: int| 0 <= j < hs@.len() ==> header_rule_ok(#[trigger] header_views(hs@)[j]),
    ensures
        final(out)@ == old(out)@ + enc_header_rules(header_views(hs@).skip(i as int)),
    decreases hs@.len() - i,
{
    if i == hs.len() {
        assert(header_views(hs@).skip(i as int) =~= Seq::<HeaderRewriteModel>::empty());
        assert(out@ =~= out@ + enc_header_rules(header_views(hs@).skip(i as int)));
    } else {
        assert(header_rule_ok(header_views(hs@)[i as int]));
        push_text(out, &hs[i].key);
        push_text(out, &hs[i].value);
        encode_header_rules_from(hs, i + 1, out);
        proof {
            let views = header_views(hs@);
            assert(views.skip(i as int)[0] == views[i as int]);
            assert(views.skip(i as int).skip(1) =~= views.skip(i + 1 as int));
            assert(enc_header_rules(views.skip(i as int)) == enc_header_rule(views[i as int])
                + enc_header_rules(views.skip(i + 1 as int)));
            assert(out@ =~= old(out)@ + enc_header_rules(views.skip(i as int)));
        }
    }
}

/// Appends the entries of `ms` from index `i` on.
#[verifier::rlimit(50)]
fn encode_entries_from(ms: &Vec<MappingConfig>, i: usize, out: &mut Vec<u8>)
    requires
        i <= ms@.len(),
        forall|j: int| 0 <= j < ms@.len() ==> entry_ok(#[trigger] mapping_views(ms@)[j]),
    ensures
        final(out)@ == old(out)@ + enc_entries(mapping_views(ms@).skip(i as int)),
    decreases ms@.len() - i,
{
    if i == ms.len() {
        assert(mapping_views(ms@).skip(i as int) =~= Seq::<MappingModel>::empty());
        assert(out@ =~= out@ + enc_entries(mapping_views(ms@).skip(i as int)));
    } else {
        assert(entry_ok(mapping_views(ms@)[i as int]));
        let ghost out0 = out@;
        let m = &ms[i];
        push_text(out, &m.name);
        push_text(out, &m.domain);
        match &m.local_addr {
            None => out.push(0),
            Some(a) => {
                out.push(1);
                push_text(out, a);
            },
        }
        out.push(m.mode.to_byte());
        push_u16(out, m.headers.len() as u16);
        encode_header_rules_from(&m.headers, 0, out);
        proof {
            assert(header_views(m.headers@).skip(0) =~= header_views(m.headers@));
            assert(out@ =~= out0 + enc_entry(mapping_views(ms@)[i as int]));
        }
        encode_entries_from(ms, i + 1, out);
        proof {
            let views = mapping_views(ms@);
            assert(views.skip(i as int)[0] == views[i as int]);
            assert(views.skip(i as int).skip(1) =~= views.skip(i + 1 as int));
            assert(enc_entries(views.skip(i as int)) == enc_entry(views[i as int]) + enc_entries(
                views.skip(i + 1 as int),
            ));
            assert(out@ =~= old(out)@ + enc_entries(views.skip(i as int)));
        }
    }
}

/// The payload bytes of a frame, or `TooLarge` when some text or count in it
/// does not fit its length prefix.
fn encode_payload(f: &ProtFrame) -> (r: Result<Vec<u8>, ProxyError>)
    ensures
        match r {
            Ok(v) => texts_ok(f@) && v@ == spec_payload(f@),
            Err(e) => e == ProxyError::TooLarge && !texts_ok(f@),
        },
{
    match f {
        ProtFrame::Token(t) => {
            if t.username.len() > MAX_TEXT || t.password.len() > MAX_TEXT {
                Err(ProxyError::TooLarge)
            } else {
                let mut v: Vec<u8> = Vec::new();
                push_text(&mut v, &t.username);
                push_text(&mut v, &t.password);
                assert(v@ =~= spec_payload(f@));
                Ok(v)
            }
        },
        ProtFrame::Mapping(m) => {
            if m.mappings.len() > MAX_TEXT {
                return Err(ProxyError::TooLarge);
            }
            if !check_entries(&m.mappings) {
                return Err(ProxyError::TooLarge);
            }
            let mut v: Vec<u8> = Vec::new();
            push_u16(&mut v, m.mappings.len() as u16);
            encode_entries_from(&m.mappings, 0, &mut v);
            proof {
                assert(mapping_views(m.mappings@).skip(0) =~= mapping_views(m.mappings@));
                assert(v@ =~= spec_payload(f@));
            }
            Ok(v)
        },
        ProtFrame::Create(c) => {
            let mut v: Vec<u8> = Vec::new();
            match &c.domain {
                None => {
                    v.push(0);
                    assert(v@ =~= spec_payload(f@));
                    Ok(v)
                },
                Some(d) => {
                    if d.len() > MAX_TEXT {
                        Err(ProxyError::TooLarge)
                    } else {
                        v.push(1);
                        push_text(&mut v, d);
                        assert(v@ =~= spec_payload(f@));
                        Ok(v)
                    }
                },
            }
        },
        ProtFrame::Data(d) => {
            let v = crate::frame::clone_bytes(&d.data);
            Ok(v)
        },
        ProtFrame::Close(c) => {
            if c.reason.len() > MAX_TEXT {
                Err(ProxyError::TooLarge)
            } else {
                let mut v: Vec<u8> = Vec::new();
                push_text(&mut v, &c.reason);
                assert(v@ =~= spec_payload(f@));
                Ok(v)
            }
        },
    }
}

impl ProtFrame {
    /// The kind byte written in this frame's header.
    pub fn kind_byte(&self) -> (r: u8)
        ensures
            r == self@.kind_byte(),
    {
        match self {
            ProtFrame::Token(_) => KIND_TOKEN,
            ProtFrame::Mapping(_) => KIND_MAPPING,
            ProtFrame::Create(_) => KIND_CREATE,
            ProtFrame::Data(_) => KIND_DATA,
            ProtFrame::Close(_) => KIND_CLOSE,
        }
    }

    /// Appends the wire bytes of the frame to `buf` and returns how many
    /// bytes were written. Fails, leaving `buf` unchanged, exactly when the
    /// frame cannot be written: a payload of 2^24 bytes or more, or a text or
    /// count beyond its 16-bit length prefix.
    pub fn encode(self, buf: &mut Vec<u8>) -> (r: Result<usize, ProxyError>)
        ensures
            match r {
                Ok(n) => encodable(self@) && final(buf)@ == old(buf)@ + spec_encode(self@) && n
                    == spec_encode(self@).len(),
                Err(e) => e == ProxyError::TooLarge && !encodable(self@) && final(buf)@ == old(buf)@,
            },
    {
        let payload = match encode_payload(&self) {
            Err(e) => {
                return Err(e);
            },
            Ok(v) => v,
        };
        if payload.len() > MAX_PAYLOAD {
            return Err(ProxyError::TooLarge);
        }
        let n = payload.len();
        buf.push(self.kind_byte());
        buf.push(0);
        push_u24(buf, n as u32);
        push_u32(buf, self.sock_map());
        append_bytes(buf, &payload);
        assert(buf@ =~= old(buf)@ + spec_encode(self@));
        Ok(9 + n)
    }
}


// ---------------------------------------------------------------------------
// Spec-level decoding
// ---------------------------------------------------------------------------

/// What one attempt to read a frame from the front of a buffer yields:
/// more bytes are needed, the frame is undecodable, or a frame and the
/// number of bytes it occupies.
pub enum DecodeStep {
    NeedMore,
    Malformed,
    Decoded(FrameModel, int),
}

/// Whether a kind byte names a frame kind.
pub open spec fn valid_kind(b: u8) -> bool {
    b == KIND_DATA || b == KIND_CREATE || b == KIND_CLOSE || b == KIND_MAPPING || b == KIND_TOKEN
}

/// Reads one length-prefixed string at `i`: the string and the position
/// after it, or `None` when the bytes run out first.
pub open spec fn parse_text(s: Seq<u8>, i: int) -> Option<(Seq<u8>, int)>
    recommends
        0 <= i,
{
    if i + 2 > s.len() {
        None
    } else {
        let n = u16_at(s, i) as int;
        if i + 2 + n > s.len() {
            None
        } else {
            Some((s.subrange(i + 2, i + 2 + n), i + 2 + n))
        }
    }
}

/// Reads one optional string at `i`: a presence byte, then the string.
pub open spec fn parse_opt_text(s: Seq<u8>, i: int) -> Option<(Option<Seq<u8>>, int)>
    recommends
        0 <= i,
{
    if i + 1 > s.len() {
        None
    } else if s[i] == 0 {
        Some((None, i + 1))
    } else if s[i] == 1 {
        match parse_text(s, i + 1) {
            None => None,
            Some((t, j)) => Some((Some(t), j)),
        }
    } else {
        None
    }
}

/// Reads `n` header rewrite rules at `i`.
pub open spec fn parse_header_rules(s: Seq<u8>, i: int, n: int) -> Option<
    (Seq<HeaderRewriteModel>, int),
>
    recommends
        0 <= i,
    decreases n,
{
    if n <= 0 {
        Some((Seq::empty(), i))
    } else {
        match parse_text(s, i) {
            None => None,
            Some((k, j)) => match parse_text(s, j) {
                None => None,
                Some((v, l)) => match parse_header_rules(s, l, n - 1) {
                    None => None,
                    Some((hs, e)) => Some(
                        (seq![HeaderRewriteModel { key: k, value: v }] + hs, e),
                    ),
                },
            },
        }
    }
}

/// Reads one mapping entry at `i`.
pub open spec fn parse_entry(s: Seq<u8>, i: int) -> Option<(MappingModel, int)>
    recommends
        0 <= i,
{
    match parse_text(s, i) {
        None => None,
        Some((name, j)) => match parse_text(s, j) {
            None => None,
            Some((domain, k)) => match parse_opt_text(s, k) {
                None => None,
                Some((local_addr, l)) => if l + 1 > s.len() {
                    None
                } else {
                    match spec_mode_of_byte(s[l]) {
                        None => None,
                        Some(mode) => if l + 3 > s.len() {
                            None
                        } else {
                            let hn = u16_at(s, l + 1) as int;
                            match parse_header_rules(s, l + 3, hn) {
                                None => None,
                                Some((headers, e)) => Some(
                                    (MappingModel { name, domain, local_addr, mode, headers }, e),
                                ),
                            }
                        },
                    }
                },
            },
        },
    }
}

/// Reads `n` mapping entries at `i`.
pub open spec fn parse_entries(s: Seq<u8>, i: int, n: int) -> Option<(Seq<MappingModel>, int)>
    recommends
        0 <= i,
    decreases n,
{
    if n <= 0 {
        Some((Seq::empty(), i))
    } else {
        match parse_entry(s, i) {
            None => None,
            Some((m, j)) => match parse_entries(s, j, n - 1) {
                None => None,
                Some((ms, e)) => Some((seq![m] + ms, e)),
            },
        }
    }
}

/// Reads the payload of a frame of kind `kind` and substream `sock`. The
/// payload must be consumed exactly.
pub open spec fn parse_payload(kind: u8, sock: u32, p: Seq<u8>) -> Option<FrameModel> {
    if kind == KIND_DATA {
        Some(FrameModel::Data { sock_map: sock, data: p })
    } else if kind == KIND_CREATE {
        match parse_opt_text(p, 0) {
            None => None,
            Some((d, j)) => if j == p.len() {
                Some(FrameModel::Create { sock_map: sock, domain: d })
            } else {
                None
            },
        }
    } else if kind == KIND_CLOSE {
        match parse_text(p, 0) {
            None => None,
            Some((t, j)) => if j == p.len() {
                Some(FrameModel::Close { sock_map: sock, reason: t })
            } else {
                None
            },
        }
    } else if kind == KIND_MAPPING {
        if p.len() < 2 {
            None
        } else {
            let cnt = u16_at(p, 0) as int;
            match parse_entries(p, 2, cnt) {
                None => None,
                Some((es, j)) => if j == p.len() {
                    Some(FrameModel::Mapping { sock_map: sock, mappings: es })
                } else {
                    None
                },
            }
        }
    } else if kind == KIND_TOKEN {
        match parse_text(p, 0) {
            None => None,
            Some((u, j)) => match parse_text(p, j) {
                None => None,
                Some((w, k)) => if k == p.len() {
                    Some(FrameModel::Token { sock_map: sock, username: u, password: w })
                } else {
                    None
                },
            },
        }
    } else {
        None
    }
}

/// Reads one frame from the front of `s`. Non-destructive: a short buffer
/// yields `NeedMore`; a kind byte naming no frame kind, or a payload that
/// does not parse exactly, yields `Malformed`.
pub open spec fn spec_decode(s: Seq<u8>) -> DecodeStep {
    if s.len() < 9 {
        DecodeStep::NeedMore
    } else if !valid_kind(s[0]) {
        DecodeStep::Malformed
    } else {
        let length = u24_at(s, 2) as int;
        if s.len() < 9 + length {
            DecodeStep::NeedMore
        } else {
            match parse_payload(s[0], u32_at(s, 5), s.subrange(9, 9 + length)) {
                Some(f) => DecodeStep::Decoded(f, 9 + length),
                None => DecodeStep::Malformed,
            }
        }
    }
}

// ---------------------------------------------------------------------------
// Executable decoding
// ---------------------------------------------------------------------------

/// The model of an optional byte vector.
pub open spec fn opt_bytes_view(d: Option<Vec<u8>>) -> Option<Seq<u8>> {
    match d {
        None => None,
        Some(v) => Some(v@),
    }
}

/// Reads one length-prefixed string at `i`.
fn read_text(buf: &Vec<u8>, i: usize) -> (r: Option<(Vec<u8>, usize)>)
    requires
        i <= buf@.len(),
    ensures
        r matches Some(p) ==> parse_text(buf@, i as int) == Some((p.0@, p.1 as int)) && i <= p.1
            <= buf@.len(),
        r is None ==> parse_text(buf@, i as int) is None,
{
    let n = buf.len();
    if n < 2 || i > n - 2 {
        return None;
    }
    let len = read_u16(buf, i) as usize;
    if len > n - (i + 2) {
        return None;
    }
    let v = copy_range(buf, i + 2, i + 2 + len);
    Some((v, i + 2 + len))
}

/// Reads one optional string at `i`.
fn read_opt_text(buf: &Vec<u8>, i: usize) -> (r: Option<(Option<Vec<u8>>, usize)>)
    requires
        i <= buf@.len(),
    ensures
        r matches Some(p) ==> parse_opt_text(buf@, i as int) == Some(
            (opt_bytes_view(p.0), p.1 as int),
        ) && i <= p.1 <= buf@.len(),
        r is None ==> parse_opt_text(buf@, i as int) is None,
{
    let n = buf.len();
    if i >= n {
        return None;
    }
    if buf[i] == 0 {
        Some((None, i + 1))
    } else if buf[i] == 1 {
        match read_text(buf, i + 1) {
            None => None,
            Some((t, j)) => Some((Some(t), j)),
        }
    } else {
        None
    }
}

/// Reads `n` header rewrite rules at `i`.
fn read_header_rules(buf: &Vec<u8>, i: usize, n: u16) -> (r: Option<(Vec<HeaderRewrite>, usize)>)
    requires
        i <= buf@.len(),
    ensures
        r matches Some(p) ==> parse_header_rules(buf@, i as int, n as int) == Some(
            (header_views(p.0@), p.1 as int),
        ) && i <= p.1 <= buf@.len(),
        r is None ==> parse_header_rules(buf@, i as int, n as int) is None,
    decreases n,
{
    if n == 0 {
        let empty: Vec<HeaderRewrite> = Vec::new();
        assert(header_views(empty@) =~= Seq::<HeaderRewriteModel>::empty());
        return Some((empty, i));
    }
    let (k, j) = match read_text(buf, i) {
        None => {
            return None;
        },
        Some(p) => p,
    };
    let (v, l) = match read_text(buf, j) {
        None => {
            return None;
        },
        Some(p) => p,
    };
    let (mut rest, e) = match read_header_rules(buf, l, n - 1) {
        None => {
            return None;
        },
        Some(p) => p,
    };
    let ghost rest0 = rest@;
    let rule = HeaderRewrite { key: k, value: v };
    rest.insert(0, rule);
    assert(header_views(rest@) =~= seq![rule@] + header_views(rest0));
    Some((rest, e))
}

/// Reads one mapping entry at `i`.
fn read_entry(buf: &Vec<u8>, i: usize) -> (r: Option<(MappingConfig, usize)>)
    requires
        i <= buf@.len(),
    ensures
        r matches Some(p) ==> parse_entry(buf@, i as int) == Some((p.0@, p.1 as int)) && i <= p.1
            <= buf@.len(),
        r is None ==> parse_entry(buf@, i as int) is None,
{
    let (name, j) = match read_text(buf, i) {
        None => {
            return None;
        },
        Some(p) => p,
    };
    let (domain, k) = match read_text(buf, j) {
        None => {
            return None;
        },
        Some(p) => p,
    };
    let (local_addr, l) = match read_opt_text(buf, k) {
        None => {
            return None;
        },
        Some(p) => p,
    };
    let n0 = buf.len();
    if l >= n0 {
        return None;
    }
    let mode = match crate::frame::MappingMode::from_byte(buf[l]) {
        None => {
            return None;
        },
        Some(m) => m,
    };
    if n0 - (l + 1) < 2 {
        return None;
    }
    let hn = read_u16(buf, l + 1);
    let (headers, e) = match read_header_rules(buf, l + 3, hn) {
        None => {
            return None;
        },
        Some(p) => p,
    };
    Some((MappingConfig { name, domain, local_addr, mode, headers }, e))
}

/// Reads `n` mapping entries at `i`.
fn read_entries(buf: &Vec<u8>, i: usize, n: u16) -> (r: Option<(Vec<MappingConfig>, usize)>)
    requires
        i <= buf@.len(),
    ensures
        r matches Some(p) ==> parse_entries(buf@, i as int, n as int) == Some(
            (mapping_views(p.0@), p.1 as int),
        ) && i <= p.1 <= buf@.len(),
        r is None ==> parse_entries(buf@, i as int, n as int) is None,
    decreases n,
{
    if n == 0 {
        let empty: Vec<MappingConfig> = Vec::new();
        assert(mapping_views(empty@) =~= Seq::<MappingModel>::empty());
        return Some((empty, i));
    }
    let (m, j) = match read_entry(buf, i) {
        None => {
            return None;
        },
        Some(p) => p,
    };
    let (mut rest, e) = match read_entries(buf, j, n - 1) {
        None => {
            return None;
        },
        Some(p) => p,
    };
    let ghost rest0 = rest@;
    rest.insert(0, m);
    assert(mapping_views(rest@) =~= seq![rest@[0]@] + mapping_views(rest0));
    Some((rest, e))
}

/// Reads one frame from the front of `buf` without consuming anything.
/// Yields the frame and how many bytes it occupies; `Ok(None)` when the
/// buffer does not yet hold a complete frame; an error exactly when the
/// front of the buffer can never become a frame, which fails the whole
/// tunnel.
pub fn decode_frame(buf: &Vec<u8>) -> (r: Result<Option<(ProtFrame, usize)>, ProxyError>)
    ensures
        spec_decode(buf@) is NeedMore ==> (r matches Ok(o) && o is None),
        spec_decode(buf@) is Malformed ==> (r matches Err(e) && e == ProxyError::ProtocolViolation),
        spec_decode(buf@) matches DecodeStep::Decoded(m, c) ==> (r matches Ok(o) && o matches Some(
            p,
        ) && p.0@ == m && p.1 as int == c),
{
    let n = buf.len();
    if n < 9 {
        return Ok(None);
    }
    let kind = buf[0];
    if kind > KIND_TOKEN {
        return Err(ProxyError::ProtocolViolation);
    }
    let length = read_u24(buf, 2) as usize;
    if n - 9 < length {
        return Ok(None);
    }
    let sock_map = read_u32(buf, 5);
    let payload = copy_range(buf, 9, 9 + length);
    let consumed = 9 + length;
    if kind == KIND_DATA {
        Ok(Some((ProtFrame::Data(ProtData { sock_map, data: payload }), consumed)))
    } else if kind == KIND_CREATE {
        match read_opt_text(&payload, 0) {
            Some((d, j)) if j == payload.len() => Ok(
                Some((ProtFrame::Create(ProtCreate { sock_map, domain: d }), consumed)),
            ),
            _ => Err(ProxyError::ProtocolViolation),
        }
    } else if kind == KIND_CLOSE {
        match read_text(&payload, 0) {
            Some((t, j)) if j == payload.len() => Ok(
                Some((ProtFrame::Close(ProtClose { sock_map, reason: t }), consumed)),
            ),
            _ => Err(ProxyError::ProtocolViolation),
        }
    } else if kind == KIND_MAPPING {
        if payload.len() < 2 {
            return Err(ProxyError::ProtocolViolation);
        }
        let cnt = read_u16(&payload, 0);
        match read_entries(&payload, 2, cnt) {
            Some((es, j)) if j == payload.len() => Ok(
                Some((ProtFrame::Mapping(ProtMapping { sock_map, mappings: es }), consumed)),
            ),
            _ => Err(ProxyError::ProtocolViolation),
        }
    } else {
        match read_text(&payload, 0) {
            Some((u, j)) => match read_text(&payload, j) {
                Some((w, k)) if k == payload.len() => Ok(
                    Some(
                        (
                            ProtFrame::Token(ProtToken { sock_map, username: u, password: w }),
                            consumed,
                        ),
                    ),
                ),
                _ => Err(ProxyError::ProtocolViolation),
            },
            None => Err(ProxyError::ProtocolViolation),
        }
    }
}

// ---------------------------------------------------------------------------
// Frame header API
// ---------------------------------------------------------------------------

/// The kind of a frame, as named by the header's kind byte.
#[derive(Clone, Copy, PartialEq, Eq, Structural, Debug)]
pub enum ProtKind {
    Data,
    Create,
    Close,
    Mapping,
    Token,
}

/// The wire byte of a frame kind.
pub open spec fn spec_kind_to_byte(k: ProtKind) -> u8 {
    match k {
        ProtKind::Data => KIND_DATA,
        ProtKind::Create => KIND_CREATE,
        ProtKind::Close => KIND_CLOSE,
        ProtKind::Mapping => KIND_MAPPING,
        ProtKind::Token => KIND_TOKEN,
    }
}

impl ProtKind {
    pub fn to_byte(self) -> (r: u8)
        ensures
            r == spec_kind_to_byte(self),
    {
        match self {
            ProtKind::Data => KIND_DATA,
            ProtKind::Create => KIND_CREATE,
            ProtKind::Close => KIND_CLOSE,
            ProtKind::Mapping => KIND_MAPPING,
            ProtKind::Token => KIND_TOKEN,
        }
    }
}

/// The flag byte of a frame header. No flag bit has a meaning yet; frames
/// are written with a zero flag and any value is accepted on reading.
#[derive(Clone, Copy, PartialEq, Eq, Structural, Debug)]
pub struct ProtFlag(pub u8);

impl ProtFlag {
    pub fn zero() -> (r: ProtFlag)
        ensures
            r.0 == 0,
    {
        ProtFlag(0)
    }
}

/// The fixed-size header in front of every frame payload.
#[derive(Debug)]
pub struct ProtFrameHeader {
    pub kind: ProtKind,
    pub flag: ProtFlag,
    pub length: u32,
    pub sock_map: u32,
}

impl ProtFrameHeader {
    pub fn new(kind: ProtKind, flag: ProtFlag, sock_map: u32) -> (r: ProtFrameHeader)
        ensures
            r.kind == kind,
            r.flag == flag,
            r.length == 0,
            r.sock_map == sock_map,
    {
        ProtFrameHeader { kind, flag, length: 0, sock_map }
    }

    pub fn sock_map(&self) -> (r: u32)
        ensures
            r == self.sock_map,
    {
        self.sock_map
    }

    /// Appends the header bytes. Fails, leaving `buf` unchanged, exactly
    /// when `length` does not fit the 24-bit length field.
    pub fn encode(&self, buf: &mut Vec<u8>) -> (r: Result<usize, ProxyError>)
        ensures
            match r {
                Ok(n) => self.length <= MAX_PAYLOAD && n == 9 && final(buf)@ == old(buf)@ + seq![
                    spec_kind_to_byte(self.kind),
                    self.flag.0,
                ] + enc_u24(self.length) + enc_u32(self.sock_map),
                Err(e) => e == ProxyError::TooLarge && self.length > MAX_PAYLOAD && final(buf)@
                    == old(buf)@,
            },
    {
        if self.length > 0xFFFFFF {
            return Err(ProxyError::TooLarge);
        }
        buf.push(self.kind.to_byte());
        buf.push(self.flag.0);
        push_u24(buf, self.length);
        push_u32(buf, self.sock_map);
        assert(buf@ =~= old(buf)@ + seq![spec_kind_to_byte(self.kind), self.flag.0] + enc_u24(
            self.length,
        ) + enc_u32(self.sock_map));
        Ok(9)
    }
}

impl ProtData {
    /// Builds the `Data` frame described by an already-read header and its
    /// payload bytes. Never fails: any payload is valid data.
    pub fn parse(header: ProtFrameHeader, buf: Vec<u8>) -> (r: Result<ProtData, ProxyError>)
        ensures
            r matches Ok(d) && d@ == (FrameModel::Data { sock_map: header.sock_map, data: buf@ }),
    {
        Ok(ProtData { sock_map: header.sock_map, data: buf })
    }

    /// Appends the wire bytes of this data frame, as `ProtFrame::encode`
    /// does for the `Data` variant.
    pub fn encode(self, buf: &mut Vec<u8>) -> (r: Result<usize, ProxyError>)
        ensures
            match r {
                Ok(n) => encodable(self@) && final(buf)@ == old(buf)@ + spec_encode(self@) && n
                    == spec_encode(self@).len(),
                Err(e) => e == ProxyError::TooLarge && !encodable(self@) && final(buf)@ == old(
                    buf,
                )@,
            },
    {
        ProtFrame::Data(self).encode(buf)
    }
}

// ---------------------------------------------------------------------------
// Round-trip proofs
// ---------------------------------------------------------------------------

/// A 16-bit field is read back from its two bytes.
proof fn lemma_u16_at_of_bytes(t: Seq<u8>, i: int, v: u16)
    requires
        0 <= i,
        i + 2 <= t.len(),
        t[i] == ((v >> 8) & 0xFF) as u8,
        t[i + 1] == (v & 0xFF) as u8,
    ensures
        u16_at(t, i) == v,
{
    assert((((((v >> 8) & 0xFF) as u8) as u16) << 8 | (((v & 0xFF) as u8) as u16)) == v)
        by (bit_vector);
}

/// A 24-bit field is read back from its three bytes.
proof fn lemma_u24_at_of_bytes(t: Seq<u8>, i: int, v: u32)
    requires
        0 <= i,
        i + 3 <= t.len(),
        v < 0x1000000,
        t[i] == ((v >> 16) & 0xFF) as u8,
        t[i + 1] == ((v >> 8) & 0xFF) as u8,
        t[i + 2] == (v & 0xFF) as u8,
    ensures
        u24_at(t, i) == v,
{
    assert(v < 0x1000000 ==> ((((v >> 16) & 0xFF) as u8 as u32) << 16 | (((v >> 8)
        & 0xFF) as u8 as u32) << 8 | ((v & 0xFF) as u8 as u32)) == v) by (bit_vector);
}

/// A 32-bit field is read back from its four bytes.
proof fn lemma_u32_at_of_bytes(t: Seq<u8>, i: int, v: u32)
    requires
        0 <= i,
        i + 4 <= t.len(),
        t[i] == ((v >> 24) & 0xFF) as u8,
        t[i + 1] == ((v >> 16) & 0xFF) as u8,
        t[i + 2] == ((v >> 8) & 0xFF) as u8,
        t[i + 3] == (v & 0xFF) as u8,
    ensures
        u32_at(t, i) == v,
{
    assert(((((v >> 24) & 0xFF) as u8 as u32) << 24 | (((v >> 16) & 0xFF) as u8 as u32) << 16 | (((
    v >> 8) & 0xFF) as u8 as u32) << 8 | ((v & 0xFF) as u8 as u32)) == v) by (bit_vector);
}

/// Splitting a window that holds a concatenation into its two halves.
proof fn lemma_split_window(t: Seq<u8>, i: int, a: Seq<u8>, b: Seq<u8>)
    requires
        0 <= i,
        i + a.len() + b.len() <= t.len(),
        t.subrange(i, i + a.len() + b.len()) == a + b,
    ensures
        t.subrange(i, i + a.len()) == a,
        t.subrange(i + a.len(), i + a.len() + b.len()) == b,
{
    assert forall|x: int| 0 <= x < a.len() + b.len() implies t[i + x] == (a + b)[x] by {
        assert(t.subrange(i, i + a.len() + b.len())[x] == t[i + x]);
    }
    assert forall|x: int| 0 <= x < a.len() implies t[i + x] == a[x] by {
        assert((a + b)[x] == a[x]);
    }
    assert forall|y: int| 0 <= y < b.len() implies t[i + a.len() + y] == b[y] by {
        assert(t[i + (a.len() + y)] == (a + b)[a.len() + y]);
        assert((a + b)[a.len() + y] == b[y]);
    }
    assert(t.subrange(i, i + a.len()) =~= a);
    assert(t.subrange(i + a.len(), i + a.len() + b.len()) =~= b);
}

/// A string written with `enc_text` is read back by `parse_text`.
proof fn lemma_parse_text_of_enc(t: Seq<u8>, i: int, s: Seq<u8>)
    requires
        0 <= i,
        text_ok(s),
        i + 2 + s.len() <= t.len(),
        t.subrange(i, i + 2 + s.len()) == enc_text(s),
    ensures
        parse_text(t, i) == Some((s, i + 2 + s.len())),
{
    let v = s.len() as u16;
    assert(t[i] == enc_text(s)[0] && t[i + 1] == enc_text(s)[1]) by {
        assert(t.subrange(i, i + 2 + s.len() as int)[0] == t[i]);
        assert(t.subrange(i, i + 2 + s.len() as int)[1] == t[i + 1]);
    }
    assert(enc_text(s)[0] == ((v >> 8) & 0xFF) as u8);
    assert(enc_text(s)[1] == (v & 0xFF) as u8);
    lemma_u16_at_of_bytes(t, i, v);
    assert(u16_at(t, i) as int == s.len());
    assert forall|x: int| 0 <= x < s.len() implies t[i + 2 + x] == s[x] by {
        assert(t.subrange(i, i + 2 + s.len() as int)[2 + x] == t[i + 2 + x]);
        assert(enc_text(s)[2 + x] == s[x]);
    }
    assert(t.subrange(i + 2, i + 2 + s.len() as int) =~= s);
}

/// An optional string written with `enc_opt_text` is read back.
proof fn lemma_parse_opt_text_of_enc(t: Seq<u8>, i: int, d: Option<Seq<u8>>)
    requires
        0 <= i,
        d matches Some(a) ==> text_ok(a),
        i + enc_opt_text(d).len() <= t.len(),
        t.subrange(i, i + enc_opt_text(d).len()) == enc_opt_text(d),
    ensures
        parse_opt_text(t, i) == Some((d, i + enc_opt_text(d).len())),
{
    match d {
        None => {
            assert(t[i] == 0) by {
                assert(t.subrange(i, i + 1)[0] == t[i]);
            }
        },
        Some(a) => {
            assert(t[i] == 1) by {
                assert(t.subrange(i, i + enc_opt_text(d).len() as int)[0] == t[i]);
            }
            assert forall|x: int| 0 <= x < 2 + a.len() implies t[i + 1 + x] == enc_text(a)[x] by {
                assert(t.subrange(i, i + enc_opt_text(d).len() as int)[1 + x] == t[i + 1 + x]);
                assert((seq![1u8] + enc_text(a))[1 + x] == enc_text(a)[x]);
            }
            assert(t.subrange(i + 1, i + 1 + 2 + a.len() as int) =~= enc_text(a));
            lemma_parse_text_of_enc(t, i + 1, a);
        },
    }
}

/// Header rules written with `enc_header_rules` are read back, in order.
proof fn lemma_parse_header_rules_of_enc(t: Seq<u8>, i: int, hs: Seq<HeaderRewriteModel>)
    requires
        0 <= i,
        forall|j: int| 0 <= j < hs.len() ==> header_rule_ok(#[trigger] hs[j]),
        i + enc_header_rules(hs).len() <= t.len(),
        t.subrange(i, i + enc_header_rules(hs).len()) == enc_header_rules(hs),
    ensures
        parse_header_rules(t, i, hs.len() as int) == Some((hs, i + enc_header_rules(hs).len())),
    decreases hs.len(),
{
    if hs.len() == 0 {
        assert(hs =~= Seq::<HeaderRewriteModel>::empty());
    } else {
        let h0 = hs[0];
        let rule = enc_header_rule(h0);
        let rest = enc_header_rules(hs.skip(1));
        assert(enc_header_rules(hs) == rule + rest);
        lemma_split_window(t, i, rule, rest);
        assert(rule == enc_text(h0.key) + enc_text(h0.value));
        lemma_split_window(t, i, enc_text(h0.key), enc_text(h0.value));
        assert(header_rule_ok(h0));
        lemma_parse_text_of_enc(t, i, h0.key);
        let j = i + 2 + h0.key.len();
        lemma_parse_text_of_enc(t, j, h0.value);
        let l = j + 2 + h0.value.len();
        assert forall|x: int| 0 <= x < hs.skip(1).len() implies header_rule_ok(
            #[trigger] hs.skip(1)[x],
        ) by {
            assert(hs.skip(1)[x] == hs[x + 1]);
        }
        lemma_parse_header_rules_of_enc(t, l, hs.skip(1));
        assert(seq![h0] + hs.skip(1) =~= hs);
    }
}

/// One mapping entry written with `enc_entry` is read back.
#[verifier::rlimit(100)]
proof fn lemma_parse_entry_of_enc(t: Seq<u8>, i: int, m: MappingModel)
    requires
        0 <= i,
        entry_ok(m),
        i + enc_entry(m).len() <= t.len(),
        t.subrange(i, i + enc_entry(m).len()) == enc_entry(m),
    ensures
        parse_entry(t, i) == Some((m, i + enc_entry(m).len())),
{
    let a = enc_text(m.name);
    let b = enc_text(m.domain);
    let c = enc_opt_text(m.local_addr);
    let d = seq![spec_mode_byte(m.mode)];
    let e = enc_u16(m.headers.len() as u16);
    let f = enc_header_rules(m.headers);
    assert(enc_entry(m) == a + b + c + d + e + f);
    lemma_split_window(t, i, a + b + c + d + e, f);
    lemma_split_window(t, i, a + b + c + d, e);
    lemma_split_window(t, i, a + b + c, d);
    lemma_split_window(t, i, a + b, c);
    lemma_split_window(t, i, a, b);
    let pb = i + a.len();
    let pc = pb + b.len();
    let pd = pc + c.len();
    let pe = pd + 1;
    let pf = pe + 2;
    assert(pc == i + (a + b).len());
    assert(pd == i + (a + b + c).len());
    assert(pe == i + (a + b + c + d).len());
    assert(pf == i + (a + b + c + d + e).len());
    lemma_parse_text_of_enc(t, i, m.name);
    lemma_parse_text_of_enc(t, pb, m.domain);
    lemma_parse_opt_text_of_enc(t, pc, m.local_addr);
    assert(t[pd] == spec_mode_byte(m.mode)) by {
        assert(t.subrange(pd, pd + 1)[0] == t[pd]);
    }
    assert(spec_mode_of_byte(t[pd]) == Some(m.mode));
    let hv = m.headers.len() as u16;
    assert(t[pe] == ((hv >> 8) & 0xFF) as u8 && t[pe + 1] == (hv & 0xFF) as u8) by {
        assert(t.subrange(pe, pe + 2)[0] == t[pe]);
        assert(t.subrange(pe, pe + 2)[1] == t[pe + 1]);
    }
    lemma_u16_at_of_bytes(t, pe, hv);
    assert(u16_at(t, pe) as int == m.headers.len());
    lemma_parse_header_rules_of_enc(t, pf, m.headers);
}

/// Mapping entries written with `enc_entries` are read back, in order.
proof fn lemma_parse_entries_of_enc(t: Seq<u8>, i: int, ms: Seq<MappingModel>)
    requires
        0 <= i,
        forall|j: int| 0 <= j < ms.len() ==> entry_ok(#[trigger] ms[j]),
        i + enc_entries(ms).len() <= t.len(),
        t.subrange(i, i + enc_entries(ms).len()) == enc_entries(ms),
    ensures
        parse_entries(t, i, ms.len() as int) == Some((ms, i + enc_entries(ms).len())),
    decreases ms.len(),
{
    if ms.len() == 0 {
        assert(ms =~= Seq::<MappingModel>::empty());
    } else {
        let m0 = ms[0];
        let head = enc_entry(m0);
        let rest = enc_entries(ms.skip(1));
        assert(enc_entries(ms) == head + rest);
        lemma_split_window(t, i, head, rest);
        lemma_parse_entry_of_enc(t, i, m0);
        let j = i + head.len();
        assert forall|x: int| 0 <= x < ms.skip(1).len() implies entry_ok(
            #[trigger] ms.skip(1)[x],
        ) by {
            assert(ms.skip(1)[x] == ms[x + 1]);
        }
        lemma_parse_entries_of_enc(t, j, ms.skip(1));
        assert(seq![m0] + ms.skip(1) =~= ms);
    }
}

/// A payload written by `spec_payload` parses back to its frame.
#[verifier::rlimit(100)]
proof fn lemma_payload_roundtrip(f: FrameModel)
    requires
        texts_ok(f),
    ensures
        parse_payload(f.kind_byte(), f.sock_map(), spec_payload(f)) == Some(f),
{
    let p = spec_payload(f);
    match f {
        FrameModel::Token { sock_map, username, password } => {
            assert(p.subrange(0, p.len() as int) =~= p);
            lemma_split_window(p, 0, enc_text(username), enc_text(password));
            lemma_parse_text_of_enc(p, 0, username);
            lemma_parse_text_of_enc(p, 2 + username.len() as int, password);
        },
        FrameModel::Mapping { sock_map, mappings } => {
            let cnt = mappings.len() as u16;
            assert(p.subrange(0, p.len() as int) =~= p);
            lemma_split_window(p, 0, enc_u16(cnt), enc_entries(mappings));
            assert(p[0] == ((cnt >> 8) & 0xFF) as u8 && p[1] == (cnt & 0xFF) as u8) by {
                assert(p.subrange(0, 2)[0] == p[0]);
                assert(p.subrange(0, 2)[1] == p[1]);
            }
            lemma_u16_at_of_bytes(p, 0, cnt);
            lemma_parse_entries_of_enc(p, 2, mappings);
        },
        FrameModel::Create { sock_map, domain } => {
            assert(p.subrange(0, enc_opt_text(domain).len() as int) =~= enc_opt_text(domain));
            lemma_parse_opt_text_of_enc(p, 0, domain);
        },
        FrameModel::Data { .. } => {},
        FrameModel::Close { sock_map, reason } => {
            assert(p.subrange(0, 2 + reason.len() as int) =~= enc_text(reason));
            lemma_parse_text_of_enc(p, 0, reason);
        },
    }
}

/// Codec round trip: any frame that can be written is read back exactly,
/// whatever bytes follow it, and reading consumes exactly its wire length.
#[verifier::rlimit(100)]
pub proof fn lemma_codec_round_trip(f: FrameModel, rest: Seq<u8>)
    requires
        encodable(f),
    ensures
        spec_decode(spec_encode(f) + rest) == DecodeStep::Decoded(
            f,
            spec_encode(f).len() as int,
        ),
{
    let p = spec_payload(f);
    let lv = p.len() as u32;
    let enc = spec_encode(f);
    let s = enc + rest;
    let hd = seq![f.kind_byte(), 0u8];
    assert(enc == hd + enc_u24(lv) + enc_u32(f.sock_map()) + p);
    assert(enc.len() == 9 + p.len());
    assert(s.subrange(0, enc.len() as int) =~= enc);
    lemma_split_window(s, 0, hd + enc_u24(lv) + enc_u32(f.sock_map()), p);
    lemma_split_window(s, 0, hd + enc_u24(lv), enc_u32(f.sock_map()));
    lemma_split_window(s, 0, hd, enc_u24(lv));
    assert(s[0] == f.kind_byte()) by {
        assert(s.subrange(0, 2)[0] == s[0]);
    }
    assert(valid_kind(s[0]));
    assert(s[2] == ((lv >> 16) & 0xFF) as u8 && s[3] == ((lv >> 8) & 0xFF) as u8 && s[4] == (lv
        & 0xFF) as u8) by {
        assert(s.subrange(2, 5)[0] == s[2]);
        assert(s.subrange(2, 5)[1] == s[3]);
        assert(s.subrange(2, 5)[2] == s[4]);
    }
    lemma_u24_at_of_bytes(s, 2, lv);
    let sm = f.sock_map();
    assert(s[5] == ((sm >> 24) & 0xFF) as u8 && s[6] == ((sm >> 16) & 0xFF) as u8 && s[7] == ((sm
        >> 8) & 0xFF) as u8 && s[8] == (sm & 0xFF) as u8) by {
        assert(s.subrange(5, 9)[0] == s[5]);
        assert(s.subrange(5, 9)[1] == s[6]);
        assert(s.subrange(5, 9)[2] == s[7]);
        assert(s.subrange(5, 9)[3] == s[8]);
    }
    lemma_u32_at_of_bytes(s, 5, sm);
    assert((hd + enc_u24(lv) + enc_u32(f.sock_map())).len() == 9);
    assert(s.subrange(9, 9 + p.len() as int) == p);
    lemma_payload_roundtrip(f);
}

/// Any strict prefix of a written frame asks for more bytes: reading never
/// consumes part of a frame, and never misreads a truncated one.
pub proof fn lemma_decode_prefix_needs_more(f: FrameModel, i: int)
    requires
        encodable(f),
        0 <= i < spec_encode(f).len(),
    ensures
        spec_decode(spec_encode(f).take(i)) is NeedMore,
{
    let enc = spec_encode(f);
    let p = spec_payload(f);
    let lv = p.len() as u32;
    let pre = enc.take(i);
    if i >= 9 {
        let hd = seq![f.kind_byte(), 0u8];
        assert(enc == hd + enc_u24(lv) + enc_u32(f.sock_map()) + p);
        assert(pre[0] == f.kind_byte()) by {
            assert(enc[0] == (hd + enc_u24(lv) + enc_u32(f.sock_map()))[0]);
        }
        assert(valid_kind(pre[0]));
        assert(pre[2] == ((lv >> 16) & 0xFF) as u8 && pre[3] == ((lv >> 8) & 0xFF) as u8 && pre[4]
            == (lv & 0xFF) as u8) by {
            assert(enc[2] == (hd + enc_u24(lv))[2]);
            assert(enc[3] == (hd + enc_u24(lv))[3]);
            assert(enc[4] == (hd + enc_u24(lv))[4]);
            assert((hd + enc_u24(lv))[2] == enc_u24(lv)[0]);
            assert((hd + enc_u24(lv))[3] == enc_u24(lv)[1]);
            assert((hd + enc_u24(lv))[4] == enc_u24(lv)[2]);
        }
        lemma_u24_at_of_bytes(pre, 2, lv);
        assert(enc.len() == 9 + p.len());
        assert(pre.len() < 9 + u24_at(pre, 2));
    }
}

/// Length bound of a `Data` frame: it can be written exactly when its
/// payload is at most 2^24 - 1 bytes.
pub proof fn lemma_data_length_bound(sock_map: u32, data: Seq<u8>)
    ensures
        encodable(FrameModel::Data { sock_map, data }) <==> data.len() <= MAX_PAYLOAD,
{
}

} // verus!


