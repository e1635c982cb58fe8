use vstd::prelude::*;

verus! {

/// Wire kind byte of a `Data` frame.
pub const KIND_DATA: u8 = 0;
/// Wire kind byte of a `Create` frame.
pub const KIND_CREATE: u8 = 1;
/// Wire kind byte of a `Close` frame.
pub const KIND_CLOSE: u8 = 2;
/// Wire kind byte of a `Mapping` frame.
pub const KIND_MAPPING: u8 = 3;
/// Wire kind byte of a `Token` frame.
pub const KIND_TOKEN: u8 = 4;

/// A frame payload is described by a 24-bit length field, so it can hold at
/// most this many bytes.
pub const MAX_PAYLOAD: usize = 0xFFFFFF;

/// Text on the wire carries a 16-bit length prefix, so one string can hold at
/// most this many bytes.
pub const MAX_TEXT: usize = 0xFFFF;

/// How an advertised mapping handles an arriving substream.
#[derive(Clone, Copy, PartialEq, Eq, Structural, Debug)]
pub enum MappingMode {
    /// Dial the mapped local TCP address and pipe bytes through.
    Tcp,
    /// Dial the mapped local address and treat the traffic as HTTP.
    Http,
    /// Feed the substream to the embedded forward-proxy engine; no local dial.
    Proxy,
}

/// The wire byte standing for each mapping mode.
pub open spec fn spec_mode_byte(m: MappingMode) -> u8 {
    match m {
        MappingMode::Tcp => 0,
        MappingMode::Http => 1,
        MappingMode::Proxy => 2,
    }
}

/// The mapping mode a wire byte stands for, if any.
pub open spec fn spec_mode_of_byte(b: u8) -> Option<MappingMode> {
    if b == 0 {
        Some(MappingMode::Tcp)
    } else if b == 1 {
        Some(MappingMode::Http)
    } else if b == 2 {
        Some(MappingMode::Proxy)
    } else {
        None
    }
}

impl MappingMode {
    pub fn to_byte(self) -> (r: u8)
        ensures
            r == spec_mode_byte(self),
    {
        match self {
            MappingMode::Tcp => 0,
            MappingMode::Http => 1,
            MappingMode::Proxy => 2,
        }
    }

    pub fn from_byte(b: u8) -> (r: Option<MappingMode>)
        ensures
            r == spec_mode_of_byte(b),
    {
        if b == 0 {
            Some(MappingMode::Tcp)
        } else if b == 1 {
            Some(MappingMode::Http)
        } else if b == 2 {
            Some(MappingMode::Proxy)
        } else {
            None
        }
    }
}

/// Mathematical value of a header rewrite rule.
pub struct HeaderRewriteModel {
    pub key: Seq<u8>,
    pub value: Seq<u8>,
}

/// One header rewrite rule carried with a mapping: a header name and the
/// value to set on traffic forwarded for that mapping. Both are UTF-8 text
/// held as bytes.
#[derive(Debug)]
pub struct HeaderRewrite {
    pub key: Vec<u8>,
    pub value: Vec<u8>,
}

impl View for HeaderRewrite {
    type V = HeaderRewriteModel;

    open spec fn view(&self) -> HeaderRewriteModel {
        HeaderRewriteModel { key: self.key@, value: self.value@ }
    }
}

/// The models of a sequence of header rewrite rules.
pub open spec fn header_views(s: Seq<HeaderRewrite>) -> Seq<HeaderRewriteModel> {
    s.map_values(|h: HeaderRewrite| h@)
}

/// Mathematical value of one advertised mapping.
pub struct MappingModel {
    pub name: Seq<u8>,
    pub domain: Seq<u8>,
    pub local_addr: Option<Seq<u8>>,
    pub mode: MappingMode,
    pub headers: Seq<HeaderRewriteModel>,
}

/// One rule a client advertises: how the server should route an inbound
/// connection for `name`/`domain` onto a substream, and what the client does
/// with that substream. `name`, `domain` and `local_addr` are UTF-8 text held
/// as bytes; `local_addr` is absent for proxy-mode mappings.
#[derive(Debug)]
pub struct MappingConfig {
    pub name: Vec<u8>,
    pub domain: Vec<u8>,
    pub local_addr: Option<Vec<u8>>,
    pub mode: MappingMode,
    pub headers: Vec<HeaderRewrite>,
}

impl View for MappingConfig {
    type V = MappingModel;

    open spec fn view(&self) -> MappingModel {
        MappingModel {
            name: self.name@,
            domain: self.domain@,
            local_addr: match self.local_addr {
                Some(a) => Some(a@),
                None => None,
            },
            mode: self.mode,
            headers: header_views(self.headers@),
        }
    }
}

/// The models of a sequence of mappings.
pub open spec fn mapping_views(s: Seq<MappingConfig>) -> Seq<MappingModel> {
    s.map_values(|m: MappingConfig| m@)
}

impl MappingConfig {
    /// Whether arriving substreams go to the forward-proxy engine.
    pub fn is_proxy(&self) -> (r: bool)
        ensures
            r == (self@.mode == MappingMode::Proxy),
    {
        match self.mode {
            MappingMode::Proxy => true,
            _ => false,
        }
    }
}

/// Mathematical value of a frame: what one wire frame says.
pub enum FrameModel {
    Token { sock_map: u32, username: Seq<u8>, password: Seq<u8> },
    Mapping { sock_map: u32, mappings: Seq<MappingModel> },
    Create { sock_map: u32, domain: Option<Seq<u8>> },
    Data { sock_map: u32, data: Seq<u8> },
    Close { sock_map: u32, reason: Seq<u8> },
}

impl FrameModel {
    /// The substream identifier the frame speaks of; 0 is tunnel-wide.
    pub open spec fn sock_map(self) -> u32 {
        match self {
            FrameModel::Token { sock_map, .. } => sock_map,
            FrameModel::Mapping { sock_map, .. } => sock_map,
            FrameModel::Create { sock_map, .. } => sock_map,
            FrameModel::Data { sock_map, .. } => sock_map,
            FrameModel::Close { sock_map, .. } => sock_map,
        }
    }

    /// The kind byte written in the frame header.
    pub open spec fn kind_byte(self) -> u8 {
        match self {
            FrameModel::Token { .. } => KIND_TOKEN,
            FrameModel::Mapping { .. } => KIND_MAPPING,
            FrameModel::Create { .. } => KIND_CREATE,
            FrameModel::Data { .. } => KIND_DATA,
            FrameModel::Close { .. } => KIND_CLOSE,
        }
    }
}

/// Authentication: first frame from the client when credentials are
/// configured. Username and password are UTF-8 text held as bytes.
#[derive(Debug)]
pub struct ProtToken {
    pub sock_map: u32,
    pub username: Vec<u8>,
    pub password: Vec<u8>,
}

/// The client advertises what it exposes; resending is allowed and the last
/// entry wins per name.
#[derive(Debug)]
pub struct ProtMapping {
    pub sock_map: u32,
    pub mappings: Vec<MappingConfig>,
}

/// Server to client: open a new substream; `domain` selects the mapping.
#[derive(Debug)]
pub struct ProtCreate {
    pub sock_map: u32,
    pub domain: Option<Vec<u8>>,
}

/// Substream payload in either direction.
#[derive(Debug)]
pub struct ProtData {
    pub sock_map: u32,
    pub data: Vec<u8>,
}

/// Half or full close of a substream; `sock_map == 0` aborts the whole
/// tunnel. An empty reason stands for no reason.
#[derive(Debug)]
pub struct ProtClose {
    pub sock_map: u32,
    pub reason: Vec<u8>,
}

impl View for ProtToken {
    type V = FrameModel;

    open spec fn view(&self) -> FrameModel {
        FrameModel::Token {
            sock_map: self.sock_map,
            username: self.username@,
            password: self.password@,
        }
    }
}

impl View for ProtMapping {
    type V = FrameModel;

    open spec fn view(&self) -> FrameModel {
        FrameModel::Mapping { sock_map: self.sock_map, mappings: mapping_views(self.mappings@) }
    }
}

impl View for ProtCreate {
    type V = FrameModel;

    open spec fn view(&self) -> FrameModel {
        FrameModel::Create {
            sock_map: self.sock_map,
            domain: match self.domain {
                Some(d) => Some(d@),
                None => None,
            },
        }
    }
}

impl View for ProtData {
    type V = FrameModel;

    open spec fn view(&self) -> FrameModel {
        FrameModel::Data { sock_map: self.sock_map, data: self.data@ }
    }
}

impl View for ProtClose {
    type V = FrameModel;

    open spec fn view(&self) -> FrameModel {
        FrameModel::Close { sock_map: self.sock_map, reason: self.reason@ }
    }
}

/// One tunnel wire frame.
#[derive(Debug)]
pub enum ProtFrame {
    Token(ProtToken),
    Mapping(ProtMapping),
    Create(ProtCreate),
    Data(ProtData),
    Close(ProtClose),
}

impl View for ProtFrame {
    type V = FrameModel;

    open spec fn view(&self) -> FrameModel {
        match self {
            ProtFrame::Token(t) => t@,
            ProtFrame::Mapping(m) => m@,
            ProtFrame::Create(c) => c@,
            ProtFrame::Data(d) => d@,
            ProtFrame::Close(c) => c@,
        }
    }
}

impl ProtCreate {
    pub fn new(sock_map: u32, domain: Option<Vec<u8>>) -> (r: ProtCreate)
        ensures
            r@ == (FrameModel::Create {
                sock_map,
                domain: match domain {
                    Some(d) => Some(d@),
                    None => None::<Seq<u8>>,
                },
            }),
    {
        ProtCreate { sock_map, domain }
    }

    pub fn sock_map(&self) -> (r: u32)
        ensures
            r == self@.sock_map(),
    {
        self.sock_map
    }

    pub fn domain(&self) -> (r: &Option<Vec<u8>>)
        ensures
            r == self.domain,
    {
        &self.domain
    }
}

impl ProtClose {
    pub fn new(sock_map: u32) -> (r: ProtClose)
        ensures
            r@ == (FrameModel::Close { sock_map, reason: Seq::<u8>::empty() }),
    {
        let reason: Vec<u8> = Vec::new();
        assert(reason@ =~= Seq::<u8>::empty());
        ProtClose { sock_map, reason }
    }

    pub fn new_with_reason(sock_map: u32, reason: Vec<u8>) -> (r: ProtClose)
        ensures
            r@ == (FrameModel::Close { sock_map, reason: reason@ }),
    {
        ProtClose { sock_map, reason }
    }

    pub fn sock_map(&self) -> (r: u32)
        ensures
            r == self@.sock_map(),
    {
        self.sock_map
    }

    pub fn reason(&self) -> (r: &Vec<u8>)
        ensures
            r@ == self@->Close_reason,
    {
        &self.reason
    }
}

impl ProtData {
    pub fn new(sock_map: u32, data: Vec<u8>) -> (r: ProtData)
        ensures
            r@ == (FrameModel::Data { sock_map, data: data@ }),
    {
        ProtData { sock_map, data }
    }

    pub fn data(&self) -> (r: &Vec<u8>)
        ensures
            r@ == self@->Data_data,
    {
        &self.data
    }

    pub fn sock_map(&self) -> (r: u32)
        ensures
            r == self@.sock_map(),
    {
        self.sock_map
    }
}

impl ProtFrame {
    pub fn new_token(username: Vec<u8>, password: Vec<u8>) -> (r: ProtFrame)
        ensures
            r@ == (FrameModel::Token { sock_map: 0, username: username@, password: password@ }),
    {
        ProtFrame::Token(ProtToken { sock_map: 0, username, password })
    }

    pub fn new_mapping(sock_map: u32, mappings: Vec<MappingConfig>) -> (r: ProtFrame)
        ensures
            r@ == (FrameModel::Mapping { sock_map, mappings: mapping_views(mappings@) }),
    {
        ProtFrame::Mapping(ProtMapping { sock_map, mappings })
    }

    pub fn new_close(sock_map: u32) -> (r: ProtFrame)
        ensures
            r@ == (FrameModel::Close { sock_map, reason: Seq::<u8>::empty() }),
    {
        ProtFrame::Close(ProtClose::new(sock_map))
    }

    pub fn new_close_reason(sock_map: u32, reason: Vec<u8>) -> (r: ProtFrame)
        ensures
            r@ == (FrameModel::Close { sock_map, reason: reason@ }),
    {
        ProtFrame::Close(ProtClose::new_with_reason(sock_map, reason))
    }

    pub fn new_create(sock_map: u32, domain: Option<Vec<u8>>) -> (r: ProtFrame)
        ensures
            r@ == (FrameModel::Create {
                sock_map,
                domain: match domain {
                    Some(d) => Some(d@),
                    None => None::<Seq<u8>>,
                },
            }),
    {
        ProtFrame::Create(ProtCreate::new(sock_map, domain))
    }

    pub fn new_data(sock_map: u32, data: Vec<u8>) -> (r: ProtFrame)
        ensures
            r@ == (FrameModel::Data { sock_map, data: data@ }),
    {
        ProtFrame::Data(ProtData::new(sock_map, data))
    }

    pub fn sock_map(&self) -> (r: u32)
        ensures
            r == self@.sock_map(),
    {
        match self {
            ProtFrame::Token(t) => t.sock_map,
            ProtFrame::Mapping(m) => m.sock_map,
            ProtFrame::Create(c) => c.sock_map,
            ProtFrame::Data(d) => d.sock_map,
            ProtFrame::Close(c) => c.sock_map,
        }
    }
}

/// The models of a sequence of frames.
pub open spec fn frame_views(s: Seq<ProtFrame>) -> Seq<FrameModel> {
    s.map_values(|f: ProtFrame| f@)
}

/// Errors of the library.
#[derive(Clone, Copy, PartialEq, Eq, Structural, Debug)]
pub enum ProxyError {
    /// A payload or a piece of text is too long for its length field.
    TooLarge,
    /// An undecodable frame arrived; the whole tunnel is failed.
    ProtocolViolation,
}

/// Byte-for-byte equality of two byte vectors.
pub fn bytes_eq(a: &Vec<u8>, b: &Vec<u8>) -> (r: bool)
    ensures
        r == (a@ == b@),
{
    if a.len() != b.len() {
        assert(a@.len() != b@.len());
        return false;
    }
    let mut i: usize = 0;
    while i < a.len()
        invariant
            0 <= i <= a.len(),
            a@.len() == b@.len(),
            forall|j: int| 0 <= j < i ==> a@[j] == b@[j],
        decreases a.len() - i,
    {
        if a[i] != b[i] {
            return false;
        }
        i = i + 1;
    }
    assert(a@ =~= b@);
    true
}

/// A copy of a byte vector with the same contents.
pub fn clone_bytes(v: &Vec<u8>) -> (r: Vec<u8>)
    ensures
        r@ == v@,
{
    let mut out: Vec<u8> = Vec::new();
    let mut i: usize = 0;
    while i < v.len()
        invariant
            0 <= i <= v.len(),
            out@ == v@.take(i as int),
        decreases v.len() - i,
    {
        out.push(v[i]);
        assert(out@ =~= v@.take(i + 1 as int));
        i = i + 1;
    }
    assert(v@.take(v.len() as int) =~= v@);
    out
}

impl HeaderRewrite {
    /// A copy with the same contents.
    pub fn duplicate(&self) -> (r: HeaderRewrite)
        ensures
            r@ == self@,
    {
        HeaderRewrite { key: clone_bytes(&self.key), value: clone_bytes(&self.value) }
    }
}

impl MappingConfig {
    /// A copy with the same contents.
    pub fn duplicate(&self) -> (r: MappingConfig)
        ensures
            r@ == self@,
    {
        let mut headers: Vec<HeaderRewrite> = Vec::new();
        let mut i: usize = 0;
        while i < self.headers.len()
            invariant
                0 <= i <= self.headers.len(),
                header_views(headers@) == header_views(self.headers@.take(i as int)),
            decreases self.headers.len() - i,
        {
            let h = self.headers[i].duplicate();
            proof {
                self.headers@.lemma_map_take_succ(|x: HeaderRewrite| x@, i as int);
                headers@.lemma_push_map_commute(|x: HeaderRewrite| x@, h);
            }
            headers.push(h);
            i = i + 1;
        }
        assert(self.headers@.take(self.headers.len() as int) =~= self.headers@);
        let r = MappingConfig {
            name: clone_bytes(&self.name),
            domain: clone_bytes(&self.domain),
            local_addr: match &self.local_addr {
                Some(a) => Some(clone_bytes(a)),
                None => None,
            },
            mode: self.mode,
            headers,
        };
        assert(r@ == self@);
        r
    }
}

/// A copy of a mapping list with the same contents.
pub fn duplicate_mappings(v: &Vec<MappingConfig>) -> (r: Vec<MappingConfig>)
    ensures
        mapping_views(r@) == mapping_views(v@),
{
    let mut out: Vec<MappingConfig> = Vec::new();
    let mut i: usize = 0;
    while i < v.len()
        invariant
            0 <= i <= v.len(),
            mapping_views(out@) == mapping_views(v@.take(i as int)),
        decreases v.len() - i,
    {
        let m = v[i].duplicate();
        proof {
            v@.lemma_map_take_succ(|x: MappingConfig| x@, i as int);
            out@.lemma_push_map_commute(|x: MappingConfig| x@, m);
        }
        out.push(m);
        i = i + 1;
    }
    assert(v@.take(v.len() as int) =~= v@);
    out
}

} // verus!
