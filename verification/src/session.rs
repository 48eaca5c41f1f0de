//! Per-client session bookkeeping and the dispatcher's routing decision.
//!
//! The surrounding process owns the socket: it reads chunks, feeds them to
//! the session, routes each decoded request where `dispatch` says, and
//! writes back what `encode_response` produces. The session carries the
//! unconsumed tail of the stream across reads, so a record straddling a
//! read boundary is completed by the next read rather than lost.

use vstd::prelude::*;

use crate::client_wire::{decode_stream, spec_decode_stream, views_of};
use crate::client_wire::lemma_decode_stream_leftover;
use crate::config::{spec_resolve, Config, Handler};
use crate::request::{expects_reply, HardwareRequest, ReqModel};

verus! {

/// Where one request goes, and whether the dispatcher then awaits the
/// reply slot before serving the next record.
#[derive(Debug, Clone, Copy, PartialEq, Eq, Structural)]
pub enum Dispatch {
    ToPad { port: u8, awaits: bool },
    ToLocal { awaits: bool },
    Drop,
}

/// The route a request takes under a configuration: what the resolver
/// says, plus whether a reply is awaited — only an encoder read on the PAD
/// side, only a switch read on the local side. A request the resolver
/// cannot place is dropped, with nothing written back.
pub open spec fn spec_dispatch(c: &Config, r: ReqModel) -> Dispatch {
    match spec_resolve(c, r) {
        Some(Handler::Pad(port)) => Dispatch::ToPad { port, awaits: r is EncoderRead },
        Some(Handler::System) => Dispatch::ToLocal { awaits: r is SwitchRead },
        None => Dispatch::Drop,
    }
}

/// Whichever actor a request reaches, the dispatcher awaits its reply slot
/// exactly for the reply-expecting request kinds: a switch read never
/// resolves to the PAD, nor an encoder read to the local actor, so each
/// side's await condition coincides with `expects_reply`.
pub proof fn lemma_dispatch_awaits(c: &Config, r: ReqModel)
    ensures
        spec_dispatch(c, r) matches Dispatch::ToPad { awaits, .. } ==> awaits == expects_reply(r),
        spec_dispatch(c, r) matches Dispatch::ToLocal { awaits } ==> awaits == expects_reply(r),
{
}

/// Route one decoded request.
pub fn dispatch(config: &Config, req: &HardwareRequest) -> (d: Dispatch)
    ensures
        d == spec_dispatch(config, req@),
{
    match config.resolve(req) {
        Some(Handler::Pad(port)) => Dispatch::ToPad {
            port,
            awaits: matches!(req, HardwareRequest::EncoderRead { .. }),
        },
        Some(Handler::System) => Dispatch::ToLocal {
            awaits: matches!(req, HardwareRequest::SwitchRead { .. }),
        },
        None => Dispatch::Drop,
    }
}

/// One client's receive state: the tail of the character stream that the
/// last decode pass left unconsumed.
pub struct Session {
    carry: Vec<char>,
}

impl Session {
    /// The carried tail.
    pub closed spec fn carry_view(&self) -> Seq<char> {
        self.carry@
    }

    /// The carried tail never holds a complete record nor anything dead: a
    /// decode pass over it alone yields nothing and consumes nothing.
    pub open spec fn inv(&self) -> bool {
        spec_decode_stream(self.carry_view()) == (Seq::<ReqModel>::empty(), 0int)
    }

    /// A fresh session with an empty carry.
    pub fn new() -> (s: Self)
        ensures
            s.inv(),
            s.carry_view() == Seq::<char>::empty(),
    {
        let s = Session { carry: Vec::new() };
        proof {
            assert(s.carry@ =~= Seq::<char>::empty());
        }
        s
    }

    /// Take in one socket read's characters and hand back every complete
    /// record now available, in stream order. The trailing incomplete
    /// record, if any, is carried to the next read. An empty read — a
    /// closed socket, on which the caller's loop must exit — yields nothing
    /// and changes nothing.
    pub fn on_read(&mut self, chunk: &Vec<char>) -> (out: Vec<HardwareRequest>)
        requires
            old(self).inv(),
        ensures
            final(self).inv(),
            views_of(out@) == spec_decode_stream(old(self).carry_view() + chunk@).0,
            final(self).carry_view() == (old(self).carry_view() + chunk@).skip(
                spec_decode_stream(old(self).carry_view() + chunk@).1,
            ),
            chunk@.len() == 0 ==> out@.len() == 0 && final(self).carry_view() == old(
                self,
            ).carry_view(),
    {
        let mut combined: Vec<char> = Vec::new();
        let n1 = self.carry.len();
        let mut i: usize = 0;
        while i < n1
            invariant
                i <= n1,
                n1 == self.carry@.len(),
                combined@ =~= self.carry@.take(i as int),
            decreases n1 - i,
        {
            combined.push(self.carry[i]);
            proof {
                assert(combined@ =~= self.carry@.take(i as int + 1));
            }
            i = i + 1;
        }
        proof {
            assert(self.carry@.take(n1 as int) =~= self.carry@);
        }
        let n2 = chunk.len();
        let mut j: usize = 0;
        while j < n2
            invariant
                j <= n2,
                n2 == chunk@.len(),
                combined@ =~= self.carry@ + chunk@.take(j as int),
            decreases n2 - j,
        {
            combined.push(chunk[j]);
            proof {
                assert(combined@ =~= self.carry@ + chunk@.take(j as int + 1));
            }
            j = j + 1;
        }
        proof {
            assert(chunk@.take(n2 as int) =~= chunk@);
            assert(combined@ =~= self.carry@ + chunk@);
        }
        let (out, consumed) = decode_stream(&combined);
        let mut rest: Vec<char> = Vec::new();
        let total = combined.len();
        let mut k: usize = consumed;
        while k < total
            invariant
                consumed <= k <= total,
                total == combined@.len(),
                rest@ =~= combined@.subrange(consumed as int, k as int),
            decreases total - k,
        {
            rest.push(combined[k]);
            proof {
                assert(rest@ =~= combined@.subrange(consumed as int, k as int + 1));
            }
            k = k + 1;
        }
        proof {
            assert(rest@ =~= combined@.skip(consumed as int));
            lemma_decode_stream_leftover(combined@);
        }
        let ghost prior = self.carry@;
        self.carry = rest;
        proof {
            if chunk@.len() == 0 {
                assert(combined@ =~= prior);
                assert(spec_decode_stream(combined@).1 == 0);
                assert(views_of(out@).len() == 0);
                assert(out@.len() == 0);
                assert(combined@.skip(0) =~= prior);
            }
        }
        out
    }
}

} // verus!
