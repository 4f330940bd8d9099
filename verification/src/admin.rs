//! The local admin socket: which addresses it is tried on, how it is bound, and
//! how a command finds it.

use vstd::prelude::*;
use crate::addr::{self, SocketAddr};
use crate::files::{self, admin_listen_path, admin_token_path, private_file_actions, FileAction, Host};
use crate::text;
use crate::token::{self, generate_admin_token};

verus! {

/// Default local UDP port of the admin socket.
pub const DEFAULT_ADMIN_PORT: u16 = 44301;

/// How many consecutive loopback ports are tried, from the default one on.
pub const ADMIN_PORT_FALLBACKS: u16 = 16;

/// A port on the loopback interface.
pub open spec fn loopback(port: u16) -> addr::AddrView {
    addr::AddrView::V4 { octets: seq![127u8, 0, 0, 1], port }
}

/// A port on the loopback interface.
fn loopback_addr(port: u16) -> (a: SocketAddr)
    ensures
        a@ == loopback(port),
{
    let a = SocketAddr::from(([127u8, 0, 0, 1], port));
    assert(a@ =~= loopback(port));
    a
}

/// The addresses that the admin socket is tried on, in this order.
pub open spec fn candidates(preferred: Option<SocketAddr>) -> Seq<addr::AddrView> {
    match preferred {
        Some(a) => seq![a@],
        None => Seq::new(
            ADMIN_PORT_FALLBACKS as nat,
            |i: int| loopback((DEFAULT_ADMIN_PORT + i) as u16),
        ),
    }
}

/// The addresses that a list of addresses stands for.
pub open spec fn addr_views(addrs: Seq<SocketAddr>) -> Seq<addr::AddrView> {
    addrs.map_values(|a: SocketAddr| a@)
}

/// Addresses the daemon will try for the admin socket.
///
/// A preferred address is tried alone. Otherwise consecutive loopback ports are
/// scanned, so that a second instance on the same host can start without
/// colliding with the first.
pub fn admin_listen_candidates(preferred: Option<SocketAddr>) -> (addrs: Vec<SocketAddr>)
    ensures
        addr_views(addrs@) == candidates(preferred),
{
    let mut addrs: Vec<SocketAddr> = Vec::new();
    match preferred {
        Some(a) => {
            addrs.push(a);
        },
        None => {
            for i in 0..ADMIN_PORT_FALLBACKS
                invariant
                    addrs@.len() == i,
                    forall|j: int|
                        0 <= j < i ==> #[trigger] addrs@[j]@ == loopback(
                            (DEFAULT_ADMIN_PORT + j) as u16,
                        ),
            {
                addrs.push(loopback_addr(DEFAULT_ADMIN_PORT + i));
            }
        },
    }
    assert(addr_views(addrs@) =~= candidates(preferred));
    addrs
}

// ---------------------------------------------------------------------------
// Binding
// ---------------------------------------------------------------------------

/// What came of the last attempt to bind the socket.
#[derive(Debug, Clone, Copy, PartialEq, Eq)]
pub enum BindEvent {
    /// Nothing was tried yet.
    Start,
    /// The socket is bound, to this local address. It is the one that was tried,
    /// but for what the system fills in, such as the port in place of port zero.
    Bound { local: SocketAddr },
    /// The address is in use.
    InUse,
    /// It failed for another reason.
    Failed,
}

/// What to do next.
#[derive(Debug, Clone, Copy, PartialEq, Eq)]
pub enum BindStep {
    /// Try to bind the socket to this address.
    Try { addr: SocketAddr },
    /// Note down this address, to which the socket is bound, for commands to find,
    /// and use the socket.
    /// `fallback` tells whether it is another port than the default one.
    Listening { addr: SocketAddr, fallback: bool },
    /// Give up: all addresses are in use. Report the last failure.
    AllInUse,
    /// Give up: there was no address to try.
    NoneToTry,
    /// Give up, and report the failure.
    Abort,
}

/// The search for an address that the admin socket can be bound to.
pub struct AdminBind {
    pub candidates: Vec<SocketAddr>,
    pub tried: usize,
}

/// The step that follows an event, where the first `tried` of the candidates were
/// tried.
pub open spec fn bind_step(cands: Seq<SocketAddr>, tried: nat, event: BindEvent) -> BindStep {
    match event {
        BindEvent::Bound { local } => BindStep::Listening {
            addr: local,
            fallback: local@.port() != DEFAULT_ADMIN_PORT,
        },
        BindEvent::Failed => BindStep::Abort,
        _ => if tried < cands.len() {
            BindStep::Try { addr: cands[tried as int] }
        } else if event == BindEvent::InUse {
            BindStep::AllInUse
        } else {
            BindStep::NoneToTry
        },
    }
}

/// Begins to bind the admin socket: nothing was tried yet.
pub fn bind_admin_udp(preferred: Option<SocketAddr>) -> (bind: AdminBind)
    ensures
        bind.wf(),
        addr_views(bind.candidates@) == candidates(preferred),
        bind.tried == 0,
{
    AdminBind { candidates: admin_listen_candidates(preferred), tried: 0 }
}

impl AdminBind {
    /// No more candidates were tried than there are.
    pub open spec fn wf(&self) -> bool {
        self.tried <= self.candidates@.len()
    }

    /// Takes note of what came of the last attempt, and says what to do next.
    pub fn step(&mut self, event: BindEvent) -> (step: BindStep)
        requires
            old(self).wf(),
        ensures
            final(self).wf(),
            final(self).candidates == old(self).candidates,
            step == bind_step(old(self).candidates@, old(self).tried as nat, event),
            final(self).tried == old(self).tried + (if step is Try {
                1int
            } else {
                0
            }),
    {
        match event {
            BindEvent::Bound { local } => BindStep::Listening {
                addr: local,
                fallback: local.port() != DEFAULT_ADMIN_PORT,
            },
            BindEvent::Failed => BindStep::Abort,
            BindEvent::InUse => if self.tried < self.candidates.len() {
                let addr = self.candidates[self.tried];
                self.tried = self.tried + 1;
                BindStep::Try { addr }
            } else {
                BindStep::AllInUse
            },
            BindEvent::Start => if self.tried < self.candidates.len() {
                let addr = self.candidates[self.tried];
                self.tried = self.tried + 1;
                BindStep::Try { addr }
            } else {
                BindStep::NoneToTry
            },
        }
    }
}

/// How the search ends that goes on with `event` after `tried` attempts, where
/// `outcomes` gives what comes of an attempt at each of the candidates.
pub open spec fn bind_result(
    cands: Seq<SocketAddr>,
    outcomes: Seq<BindEvent>,
    tried: nat,
    event: BindEvent,
) -> BindStep
    decreases cands.len() - tried,
{
    let step = bind_step(cands, tried, event);
    if step is Try && tried < cands.len() {
        bind_result(cands, outcomes, tried + 1, outcomes[tried as int])
    } else {
        step
    }
}

/// How many candidates were tried when that search ends.
pub open spec fn bind_attempts(
    cands: Seq<SocketAddr>,
    outcomes: Seq<BindEvent>,
    tried: nat,
    event: BindEvent,
) -> nat
    decreases cands.len() - tried,
{
    if bind_step(cands, tried, event) is Try && tried < cands.len() {
        bind_attempts(cands, outcomes, tried + 1, outcomes[tried as int])
    } else {
        tried
    }
}

/// The search passes over candidates that are in use.
proof fn lemma_skip_in_use(
    cands: Seq<SocketAddr>,
    outcomes: Seq<BindEvent>,
    tried: nat,
    event: BindEvent,
    k: nat,
)
    requires
        tried <= k <= cands.len(),
        tried < k ==> (event == BindEvent::Start || event == BindEvent::InUse),
        forall|i: int| tried <= i < k ==> #[trigger] outcomes[i] == BindEvent::InUse,
    ensures
        bind_result(cands, outcomes, tried, event) == bind_result(
            cands,
            outcomes,
            k,
            if tried == k {
                event
            } else {
                BindEvent::InUse
            },
        ),
        bind_attempts(cands, outcomes, tried, event) == bind_attempts(
            cands,
            outcomes,
            k,
            if tried == k {
                event
            } else {
                BindEvent::InUse
            },
        ),
    decreases k - tried,
{
    if tried < k {
        lemma_skip_in_use(cands, outcomes, tried + 1, outcomes[tried as int], k);
    }
}

/// The search ends with the first candidate that is not in use: candidates in use
/// are passed over, in order, and none behind it is tried. What is noted down is the
/// address that the socket is bound to.
pub proof fn law_first_free_candidate_is_bound(
    cands: Seq<SocketAddr>,
    outcomes: Seq<BindEvent>,
    k: int,
    local: SocketAddr,
)
    requires
        0 <= k < cands.len(),
        forall|i: int| 0 <= i < k ==> #[trigger] outcomes[i] == BindEvent::InUse,
        outcomes[k] == (BindEvent::Bound { local }),
    ensures
        bind_attempts(cands, outcomes, 0, BindEvent::Start) == k + 1,
        bind_result(cands, outcomes, 0, BindEvent::Start) == (BindStep::Listening {
            addr: local,
            fallback: local@.port() != DEFAULT_ADMIN_PORT,
        }),
{
    lemma_skip_in_use(cands, outcomes, 0, BindEvent::Start, k as nat);
    reveal_with_fuel(bind_result, 3);
    reveal_with_fuel(bind_attempts, 3);
}

/// Any failure but an address in use ends the search.
pub proof fn law_other_failure_ends_the_search(
    cands: Seq<SocketAddr>,
    outcomes: Seq<BindEvent>,
    k: int,
)
    requires
        0 <= k < cands.len(),
        forall|i: int| 0 <= i < k ==> #[trigger] outcomes[i] == BindEvent::InUse,
        outcomes[k] == BindEvent::Failed,
    ensures
        bind_attempts(cands, outcomes, 0, BindEvent::Start) == k + 1,
        bind_result(cands, outcomes, 0, BindEvent::Start) == BindStep::Abort,
{
    lemma_skip_in_use(cands, outcomes, 0, BindEvent::Start, k as nat);
    reveal_with_fuel(bind_result, 3);
    reveal_with_fuel(bind_attempts, 3);
}

/// If all of the candidates are in use, each of them is tried, and that is what is
/// reported; and there is always at least one candidate.
pub proof fn law_all_in_use_is_reported(
    preferred: Option<SocketAddr>,
    cands: Seq<SocketAddr>,
    outcomes: Seq<BindEvent>,
)
    requires
        addr_views(cands) == candidates(preferred),
        forall|i: int| 0 <= i < cands.len() ==> #[trigger] outcomes[i] == BindEvent::InUse,
    ensures
        cands.len() > 0,
        bind_attempts(cands, outcomes, 0, BindEvent::Start) == cands.len(),
        bind_result(cands, outcomes, 0, BindEvent::Start) == BindStep::AllInUse,
{
    assert(cands.len() == addr_views(cands).len());
    lemma_skip_in_use(cands, outcomes, 0, BindEvent::Start, cands.len());
}

/// Without a preferred address the candidates are as many loopback ports as said,
/// consecutive from the default one on, so no two of them are the same.
pub proof fn law_default_candidates_are_consecutive(i: int, j: int)
    requires
        0 <= i < ADMIN_PORT_FALLBACKS,
        0 <= j < ADMIN_PORT_FALLBACKS,
    ensures
        candidates(None).len() == ADMIN_PORT_FALLBACKS,
        candidates(None)[i] == loopback((DEFAULT_ADMIN_PORT + i) as u16),
        candidates(None)[i].port() == DEFAULT_ADMIN_PORT + i,
        i != j ==> candidates(None)[i] != candidates(None)[j],
{
    assert(candidates(None)[i].port() == DEFAULT_ADMIN_PORT + i);
    assert(candidates(None)[j].port() == DEFAULT_ADMIN_PORT + j);
}

/// A preferred address is tried alone, whatever comes of it: what is noted down is
/// what the socket is bound to then, and any failure is final.
pub proof fn law_preferred_address_is_tried_alone(
    preferred: SocketAddr,
    cands: Seq<SocketAddr>,
    outcomes: Seq<BindEvent>,
)
    requires
        addr_views(cands) == candidates(Some(preferred)),
        outcomes[0] != BindEvent::Start,
    ensures
        cands.len() == 1,
        bind_step(cands, 0, BindEvent::Start) matches BindStep::Try { addr } && addr@
            == preferred@,
        bind_attempts(cands, outcomes, 0, BindEvent::Start) == 1,
        match bind_result(cands, outcomes, 0, BindEvent::Start) {
            BindStep::Listening { addr, fallback } => outcomes[0] == (BindEvent::Bound {
                local: addr,
            }),
            BindStep::AllInUse => outcomes[0] == BindEvent::InUse,
            BindStep::Abort => outcomes[0] == BindEvent::Failed,
            _ => false,
        },
{
    assert(addr_views(cands).len() == 1);
    assert(addr_views(cands)[0] == cands[0]@);
    reveal_with_fuel(bind_result, 3);
    reveal_with_fuel(bind_attempts, 3);
}

// ---------------------------------------------------------------------------
// Finding the socket
// ---------------------------------------------------------------------------

/// The address that a command goes to, given what the listen file holds.
pub open spec fn listen_addr(contents: Option<Seq<char>>) -> addr::AddrView {
    match contents {
        Some(s) => match addr::parsed_addr(text::trimmed(s)) {
            Some(a) => a,
            None => loopback(DEFAULT_ADMIN_PORT),
        },
        None => loopback(DEFAULT_ADMIN_PORT),
    }
}

/// The actions that note down the address of the admin socket for commands.
pub fn persist_admin_listen(host: &Host, addr: SocketAddr) -> (actions: Vec<FileAction>)
    ensures
        files::action_views(actions@) == files::private_file(
            *host,
            files::listen_path(*host),
            addr::addr_text(addr@),
        ),
{
    let body = addr.to_string();
    private_file_actions(host, admin_listen_path(host), body.as_str())
}

/// Address the running daemon bound for the admin socket, given what could be
/// read of the listen file; the default address where that is of no use. Commands
/// go there, so they reach a daemon on a fallback port too.
pub fn read_admin_listen(contents: Option<&str>) -> (a: SocketAddr)
    ensures
        a@ == listen_addr(
            match contents {
                Some(s) => Some(s@),
                None => None,
            },
        ),
{
    match contents {
        Some(s) => match SocketAddr::parse(s.trim()) {
            Some(a) => a,
            None => loopback_addr(DEFAULT_ADMIN_PORT),
        },
        None => loopback_addr(DEFAULT_ADMIN_PORT),
    }
}

/// Makes a fresh token for the admin socket, and the actions that put it in its
/// place, so that a token from an earlier run is no longer valid.
pub fn ensure_admin_token(host: &Host) -> (res: (String, Vec<FileAction>))
    ensures
        token::is_admin_token(res.0@),
        exists|choices: Seq<usize>|
            token::drawn(choices) && res.0@ == #[trigger] token::spelled(choices),
        files::action_views(res.1@) == files::private_file(
            *host,
            files::token_path(*host),
            res.0@,
        ),
{
    let token = generate_admin_token();
    let actions = private_file_actions(host, admin_token_path(host), token.as_str());
    (token, actions)
}

/// What a command reads is what the daemon noted down: after the address was
/// persisted, whatever the files held before, reading the listen file gives that
/// address. The flow information of an IPv6 address is not noted down.
pub proof fn law_listen_address_round_trip(
    host: Host,
    a: SocketAddr,
    before: Map<files::PathView, Seq<char>>,
)
    requires
        a matches SocketAddr::V6 { segments, port, flowinfo, scope_id } ==> flowinfo == 0,
    ensures
        ({
            let path = files::listen_path(host);
            let after = files::all_performed(
                before,
                files::private_file(host, path, addr::addr_text(a@)),
            );
            after.dom().contains(path) && listen_addr(Some(after[path])) == a@
        }),
{
    let path = files::listen_path(host);
    files::law_private_file_is_replaced(host, path, addr::addr_text(a@), before);
    addr::lemma_addr_text_ends(a);
    text::lemma_trimmed_unchanged(addr::addr_text(a@));
    addr::law_address_text_round_trip(a);
}

/// Commands find the daemon: where the search for an address ended with a socket
/// bound to `local`, be it on a fallback port or one that the system chose, and the
/// address was noted down that it says to note down, reading the listen file gives
/// `local`. The flow information of an IPv6 address is not noted down.
pub proof fn law_bound_address_is_read(
    host: Host,
    cands: Seq<SocketAddr>,
    outcomes: Seq<BindEvent>,
    k: int,
    local: SocketAddr,
    before: Map<files::PathView, Seq<char>>,
)
    requires
        0 <= k < cands.len(),
        forall|i: int| 0 <= i < k ==> #[trigger] outcomes[i] == BindEvent::InUse,
        outcomes[k] == (BindEvent::Bound { local }),
        local matches SocketAddr::V6 { segments, port, flowinfo, scope_id } ==> flowinfo == 0,
    ensures
        bind_result(cands, outcomes, 0, BindEvent::Start) matches BindStep::Listening {
            addr,
            fallback,
        } && ({
            let path = files::listen_path(host);
            let after = files::all_performed(
                before,
                files::private_file(host, path, addr::addr_text(addr@)),
            );
            after.dom().contains(path) && listen_addr(Some(after[path])) == local@
        }),
{
    law_first_free_candidate_is_bound(cands, outcomes, k, local);
    law_listen_address_round_trip(host, local, before);
}

/// What a command reads of the token file, after the daemon put its token there,
/// is the token, whatever the files held before; and of all texts only that one
/// matches the daemon's token.
pub proof fn law_token_round_trip(
    host: Host,
    token: Seq<char>,
    candidate: Seq<char>,
    before: Map<files::PathView, Seq<char>>,
)
    requires
        token::is_admin_token(token),
    ensures
        ({
            let path = files::token_path(host);
            let after = files::all_performed(before, files::private_file(host, path, token));
            &&& after.dom().contains(path)
            &&& text::trimmed(after[path]) == token
            &&& token::bytes_match(
                vstd::utf8::encode_utf8(candidate),
                vstd::utf8::encode_utf8(token),
            ) <==> candidate == text::trimmed(after[path])
        }),
{
    let path = files::token_path(host);
    files::law_private_file_is_replaced(host, path, token, before);
    token::law_token_read_back(token);
    token::law_only_the_token_matches(token, candidate);
}

/// The file of the address and that of the token do not get in each other's way.
pub proof fn law_files_are_apart(host: Host)
    ensures
        files::listen_path(host) != files::token_path(host),
        files::listen_path(host).parent() == files::token_path(host).parent(),
{
    reveal_strlit("admin.listen");
    reveal_strlit("admin.token");
    reveal_strlit("aivpn-admin.token");
    let a = files::listen_path(host);
    let b = files::token_path(host);
    assert(a.components.last() == "admin.listen"@);
    assert(b.components.last() == "admin.token"@ || b.components.last() == "aivpn-admin.token"@);
    assert("admin.listen"@.len() == 12 && "admin.token"@.len() == 11 && "aivpn-admin.token"@.len()
        == 17);
    assert(a.parent() =~= b.parent());
}

// ---------------------------------------------------------------------------
// What holds of the addresses
// ---------------------------------------------------------------------------

/// Without a preferred address the loopback ports from 44301 to 44316 are tried, one
/// after the other; with one, it alone.
pub proof fn law_candidates(preferred: SocketAddr, i: int)
    requires
        0 <= i < 16,
    ensures
        candidates(None).len() == 16,
        candidates(None)[i] matches addr::AddrView::V4 { octets, port } && octets == seq![
            127u8,
            0,
            0,
            1,
        ] && port == 44301 + i,
        candidates(Some(preferred)).len() == 1,
        candidates(Some(preferred))[0] == preferred@,
{
}

/// Addresses are shown one for one.
pub proof fn law_addresses_one_by_one(addrs: Seq<SocketAddr>, i: int)
    requires
        0 <= i < addrs.len(),
    ensures
        addr_views(addrs).len() == addrs.len(),
        addr_views(addrs)[i] == addrs[i]@,
{
}

/// What follows each event. A bound socket is used, whatever its address, and that
/// address is noted down; a failure is final; and as long as there are candidates
/// that were not tried, the next of them is.
pub proof fn law_every_event_has_its_step(
    cands: Seq<SocketAddr>,
    tried: nat,
    local: SocketAddr,
)
    ensures
        bind_step(cands, tried, BindEvent::Bound { local }) matches BindStep::Listening {
            addr,
            fallback,
        } && addr == local && fallback == (local@.port() != 44301),
        bind_step(cands, tried, BindEvent::Failed) is Abort,
        tried < cands.len() ==> (bind_step(cands, tried, BindEvent::InUse)
            matches BindStep::Try { addr } && addr == cands[tried as int]),
        tried < cands.len() ==> (bind_step(cands, tried, BindEvent::Start)
            matches BindStep::Try { addr } && addr == cands[tried as int]),
        tried >= cands.len() ==> bind_step(cands, tried, BindEvent::InUse) is AllInUse,
        tried >= cands.len() ==> bind_step(cands, tried, BindEvent::Start) is NoneToTry,
{
}

/// Without a listen file, or with one that holds no address, commands go to loopback
/// port 44301.
pub proof fn law_default_address(contents: Seq<char>)
    requires
        addr::parsed_addr(text::trimmed(contents)) is None,
    ensures
        listen_addr(None) == (addr::AddrView::V4 { octets: seq![127u8, 0, 0, 1], port: 44301 }),
        listen_addr(Some(contents)) == listen_addr(None),
{
    assert(listen_addr(None) =~= (addr::AddrView::V4 {
        octets: seq![127u8, 0, 0, 1],
        port: 44301,
    }));
}

/// An address in the listen file is found whatever white space stands around it.
pub proof fn law_padded_address_is_read(
    before: Seq<char>,
    a: SocketAddr,
    after: Seq<char>,
)
    requires
        a matches SocketAddr::V6 { segments, port, flowinfo, scope_id } ==> flowinfo == 0,
        forall|i: int| 0 <= i < before.len() ==> text::is_white_space(#[trigger] before[i]),
        forall|i: int| 0 <= i < after.len() ==> text::is_white_space(#[trigger] after[i]),
    ensures
        listen_addr(Some(before + addr::addr_text(a@) + after)) == a@,
{
    addr::lemma_addr_text_ends(a);
    text::law_padding_is_trimmed(before, addr::addr_text(a@), after);
    addr::law_address_text_round_trip(a);
}

} // verus!
