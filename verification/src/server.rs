use vstd::prelude::*;

use crate::frame::{
    bytes_eq, mapping_views, FrameModel, MappingConfig, ProtFrame,
};
use crate::session::{
    add_id, alloc_sock_map, candidate, compose_sock_map, contains_id, has_id, ids_same_but,
    no_dups, remove_id, ID_SPACE,
};

verus! {

/// The reason a server closes an unauthenticated or wrongly authenticated
/// tunnel with: the bytes of "unauthenticated".
pub open spec fn unauth_reason() -> Seq<u8> {
    seq![117u8, 110, 97, 117, 116, 104, 101, 110, 116, 105, 99, 97, 116, 101, 100]
}

/// Builds the `Close` frame that aborts an unauthenticated tunnel:
/// substream zero, reason "unauthenticated".
pub fn unauth_close() -> (r: ProtFrame)
    ensures
        r@ == (FrameModel::Close { sock_map: 0, reason: unauth_reason() }),
{
    let reason: Vec<u8> = vec![
        117u8, 110, 97, 117, 116, 104, 101, 110, 116, 105, 99, 97, 116, 101, 100,
    ];
    assert(reason@ =~= unauth_reason());
    ProtFrame::new_close_reason(0, reason)
}

/// What the server's tunnel loop should do with one received frame.
pub enum ServerAction {
    /// Send this frame and hang the tunnel up; nothing was delivered.
    CloseTunnel(ProtFrame),
    /// The client authenticated; the tunnel now accepts other frames.
    Authenticated,
    /// The advertised mappings were taken into the registry.
    RegistryUpdated,
    /// Deliver the frame to this live substream's inbound queue.
    Forward { sock_map: u32 },
    /// The client aborted the whole tunnel.
    Abort,
    /// Nothing to do; the frame is dropped.
    Ignore,
}

/// The decision state of one accepted tunnel on the center server: whether
/// the client has authenticated, what it advertised, and which substreams
/// are live. The listeners and sockets around it stay outside.
pub struct ServerSession {
    /// The credentials the server demands; authentication is required
    /// exactly when both are set.
    pub username: Option<Vec<u8>>,
    pub password: Option<Vec<u8>>,
    /// Whether a matching `Token` has arrived on this tunnel.
    pub authed: bool,
    /// Everything this client advertised, in arrival order; lookups take
    /// the last match, so a resent name overrides the earlier entry.
    pub registry: Vec<MappingConfig>,
    /// Identifiers of live substreams, each at most once.
    pub live: Vec<u32>,
    /// The 24-bit counter the next allocation starts from; always even:
    /// a server allocates even identifiers, a client odd ones.
    pub next_id: u32,
    /// The byte put on top of allocated identifiers.
    pub server_id: u8,
}

impl ServerSession {
    /// Authentication is demanded exactly when both credentials are set.
    pub open spec fn requires_auth(self) -> bool {
        self.username is Some && self.password is Some
    }

    /// The tunnel accepts frames other than `Token`.
    pub open spec fn admits_frames(self) -> bool {
        !self.requires_auth() || self.authed
    }

    /// The session's bookkeeping is sound.
    pub open spec fn wf(self) -> bool {
        &&& no_dups(self.live@)
        &&& self.next_id < ID_SPACE
        &&& self.next_id % 2 == 0
    }

    /// The fields a received frame never changes.
    pub open spec fn same_config(self, other: ServerSession) -> bool {
        &&& crate::session::cred_view(other.username) == crate::session::cred_view(self.username)
        &&& crate::session::cred_view(other.password) == crate::session::cred_view(self.password)
        &&& other.server_id == self.server_id
    }

    pub fn new(username: Option<Vec<u8>>, password: Option<Vec<u8>>, server_id: u8) -> (r:
        ServerSession)
        ensures
            r.wf(),
            crate::session::cred_view(r.username) == crate::session::cred_view(username),
            crate::session::cred_view(r.password) == crate::session::cred_view(password),
            !r.authed,
            r.registry@ == Seq::<MappingConfig>::empty(),
            r.live@ == Seq::<u32>::empty(),
            r.next_id == 2,
            r.server_id == server_id,
    {
        let registry: Vec<MappingConfig> = Vec::new();
        let live: Vec<u32> = Vec::new();
        assert(registry@ =~= Seq::<MappingConfig>::empty());
        assert(live@ =~= Seq::<u32>::empty());
        ServerSession { username, password, authed: false, registry, live, next_id: 2, server_id }
    }

    /// Decides what to do with one frame read from an accepted tunnel.
    /// While the server demands credentials and none have arrived, any
    /// frame but `Token` closes the tunnel with reason "unauthenticated"
    /// and delivers nothing; a `Token` with the wrong credentials does the
    /// same. Once authentication is settled: `Mapping` extends the registry,
    /// `Data` and `Close` route to live substreams as on the client, and
    /// `Create` or a second `Token` from the client is ignored.
    pub fn on_frame(&mut self, f: &ProtFrame) -> (r: ServerAction)
        requires
            old(self).wf(),
        ensures
            final(self).wf(),
            old(self).same_config(*final(self)),
            final(self).next_id == old(self).next_id,
            !old(self).admits_frames() && !(f@ is Token) ==> {
                &&& r matches ServerAction::CloseTunnel(g) && g@ == (FrameModel::Close {
                    sock_map: 0,
                    reason: unauth_reason(),
                })
                &&& *final(self) == *old(self)
            },
            f@ matches FrameModel::Token { username: u, password: p, .. } ==> {
                &&& old(self).admits_frames() ==> r is Ignore && *final(self) == *old(self)
                &&& !old(self).admits_frames() ==> {
                    &&& (Some(u) == crate::session::cred_view(old(self).username) && Some(p)
                        == crate::session::cred_view(old(self).password)) ==> (r
                        is Authenticated && final(self).authed && final(self).live@ == old(
                        self,
                    ).live@ && final(self).registry@ == old(self).registry@)
                    &&& !(Some(u) == crate::session::cred_view(old(self).username) && Some(p)
                        == crate::session::cred_view(old(self).password)) ==> {
                        &&& r matches ServerAction::CloseTunnel(g) && g@ == (FrameModel::Close {
                            sock_map: 0,
                            reason: unauth_reason(),
                        })
                        &&& *final(self) == *old(self)
                    }
                }
            },
            old(self).admits_frames() ==> {
                &&& f@ matches FrameModel::Mapping { mappings, .. } ==> (r is RegistryUpdated
                    && mapping_views(final(self).registry@) == mapping_views(old(self).registry@)
                    + mappings && final(self).live@ == old(self).live@ && final(self).authed
                    == old(self).authed)
                &&& f@ matches FrameModel::Data { sock_map, .. } ==> {
                    &&& final(self).live@ == old(self).live@
                    &&& final(self).registry@ == old(self).registry@
                    &&& has_id(old(self).live@, sock_map) ==> (r
                        matches ServerAction::Forward { sock_map: s } && s == sock_map)
                    &&& !has_id(old(self).live@, sock_map) ==> r is Ignore
                }
                &&& f@ matches FrameModel::Close { sock_map, .. } ==> {
                    &&& final(self).registry@ == old(self).registry@
                    &&& sock_map == 0 ==> r is Abort && final(self).live@ == old(self).live@
                    &&& sock_map != 0 && has_id(old(self).live@, sock_map) ==> {
                        &&& r matches ServerAction::Forward { sock_map: s } && s == sock_map
                        &&& ids_same_but(old(self).live@, final(self).live@, sock_map, false)
                    }
                    &&& sock_map != 0 && !has_id(old(self).live@, sock_map) ==> (r is Ignore
                        && final(self).live@ == old(self).live@)
                }
                &&& f@ is Create ==> r is Ignore && *final(self) == *old(self)
            },
    {
        let admits = match (&self.username, &self.password) {
            (Some(_), Some(_)) => self.authed,
            _ => true,
        };
        match f {
            ProtFrame::Token(t) => {
                if admits {
                    ServerAction::Ignore
                } else {
                    let user_ok = match &self.username {
                        Some(u) => bytes_eq(&t.username, u),
                        None => false,
                    };
                    let pass_ok = match &self.password {
                        Some(p) => bytes_eq(&t.password, p),
                        None => false,
                    };
                    if user_ok && pass_ok {
                        self.authed = true;
                        ServerAction::Authenticated
                    } else {
                        ServerAction::CloseTunnel(unauth_close())
                    }
                }
            },
            ProtFrame::Mapping(m) => {
                if !admits {
                    ServerAction::CloseTunnel(unauth_close())
                } else {
                    crate::mapping::extend_registry(
                        &mut self.registry,
                        crate::frame::duplicate_mappings(&m.mappings),
                    );
                    ServerAction::RegistryUpdated
                }
            },
            ProtFrame::Data(d) => {
                if !admits {
                    ServerAction::CloseTunnel(unauth_close())
                } else if contains_id(&self.live, d.sock_map) {
                    ServerAction::Forward { sock_map: d.sock_map }
                } else {
                    ServerAction::Ignore
                }
            },
            ProtFrame::Close(c) => {
                if !admits {
                    ServerAction::CloseTunnel(unauth_close())
                } else if c.sock_map == 0 {
                    ServerAction::Abort
                } else if contains_id(&self.live, c.sock_map) {
                    remove_id(&mut self.live, c.sock_map);
                    ServerAction::Forward { sock_map: c.sock_map }
                } else {
                    ServerAction::Ignore
                }
            },
            ProtFrame::Create(_) => {
                if !admits {
                    ServerAction::CloseTunnel(unauth_close())
                } else {
                    ServerAction::Ignore
                }
            },
        }
    }

    /// An external connection arrived for `domain`: allocates an even,
    /// fresh, nonzero substream identifier — the server byte over the
    /// first candidate from the counter that is neither zero nor live —
    /// marks it live, and hands back the `Create` frame to send down the
    /// tunnel. `None` only when every candidate it may inspect is zero or
    /// already live, as stated below; nothing changes then.
    pub fn open_substream(&mut self, domain: Option<Vec<u8>>) -> (r: Option<(u32, ProtFrame)>)
        requires
            old(self).wf(),
        ensures
            final(self).wf(),
            old(self).same_config(*final(self)),
            final(self).registry@ == old(self).registry@,
            final(self).authed == old(self).authed,
            r matches Some(p) ==> {
                &&& p.0 != 0
                &&& p.0 % 2 == 0
                &&& !has_id(old(self).live@, p.0)
                &&& ids_same_but(old(self).live@, final(self).live@, p.0, true)
                &&& p.1@ == (FrameModel::Create {
                    sock_map: p.0,
                    domain: crate::codec::opt_bytes_view(domain),
                })
                &&& exists|k: int|
                    {
                        &&& 0 <= k <= old(self).live@.len()
                        &&& p.0 == compose_sock_map(
                            old(self).server_id,
                            #[trigger] candidate(old(self).next_id, k),
                        )
                        &&& final(self).next_id == candidate(old(self).next_id, k + 1)
                    }
            },
            r is None ==> final(self).live@ == old(self).live@ && final(self).next_id == old(
                self,
            ).next_id && forall|k: int|
                0 <= k <= old(self).live@.len() ==> (compose_sock_map(
                    old(self).server_id,
                    #[trigger] candidate(old(self).next_id, k),
                ) == 0 || has_id(
                    old(self).live@,
                    compose_sock_map(old(self).server_id, candidate(old(self).next_id, k)),
                )),
    {
        match alloc_sock_map(&self.live, self.next_id, self.server_id) {
            None => None,
            Some((id, step)) => {
                self.next_id = step;
                add_id(&mut self.live, id);
                Some((id, ProtFrame::new_create(id, domain)))
            },
        }
    }

    /// Delivery to a live substream's inbound queue failed because the
    /// queue is full. Dropping a `Close` there is harmless — it is
    /// idempotent — but a dropped `Data` frame forces the substream
    /// closed: it leaves the table and a `Close` for it goes back to the
    /// peer.
    pub fn on_delivery_failure(&mut self, f: &ProtFrame) -> (r: Option<ProtFrame>)
        requires
            old(self).wf(),
        ensures
            final(self).wf(),
            old(self).same_config(*final(self)),
            final(self).next_id == old(self).next_id,
            final(self).registry@ == old(self).registry@,
            final(self).authed == old(self).authed,
            f@ matches FrameModel::Data { sock_map, .. } ==> {
                &&& r matches Some(g) && g@ == (FrameModel::Close {
                    sock_map,
                    reason: Seq::<u8>::empty(),
                })
                &&& ids_same_but(old(self).live@, final(self).live@, sock_map, false)
            },
            !(f@ is Data) ==> r is None && final(self).live@ == old(self).live@,
    {
        match f {
            ProtFrame::Data(d) => {
                remove_id(&mut self.live, d.sock_map);
                Some(ProtFrame::new_close(d.sock_map))
            },
            _ => None,
        }
    }

    /// Looks an inbound request's key up in this tunnel's registry, last
    /// advertisement first.
    pub fn route(&self, domain: &Vec<u8>) -> (r: Option<usize>)
        ensures
            r matches Some(i) ==> crate::mapping::is_last_match(
                mapping_views(self.registry@),
                domain@,
                i as int,
            ),
            r is None ==> forall|j: int|
                0 <= j < self.registry@.len() ==> !crate::mapping::spec_match(
                    #[trigger] mapping_views(self.registry@)[j],
                    domain@,
                ),
    {
        crate::mapping::lookup_mapping(&self.registry, domain)
    }

    /// The tunnel dropped: every live substream is closed locally and the
    /// table empties, as on the client.
    pub fn on_tunnel_lost(&mut self) -> (r: Vec<u32>)
        requires
            old(self).wf(),
        ensures
            final(self).wf(),
            old(self).same_config(*final(self)),
            r@ == old(self).live@,
            final(self).live@ == Seq::<u32>::empty(),
    {
        let mut out: Vec<u32> = Vec::new();
        let mut i: usize = 0;
        while i < self.live.len()
            invariant
                0 <= i <= self.live@.len(),
                out@ == self.live@.take(i as int),
            decreases self.live@.len() - i,
        {
            out.push(self.live[i]);
            assert(out@ =~= self.live@.take(i + 1 as int));
            i = i + 1;
        }
        assert(self.live@.take(self.live@.len() as int) =~= self.live@);
        self.live.clear();
        out
    }
}

} // verus!
