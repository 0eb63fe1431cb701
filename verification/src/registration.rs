//! The registration of a device, as a sequence of questions to the store.
//!
//! The engine never reaches the store itself. It names the call that it needs
//! next; whoever drives it makes that call, on whatever store there is, and
//! hands the reply back. `register` drives the engine over the store that is
//! kept in memory.

pub mod laws;

use crate::allocation::{
    first_fit_picks, free_ports, in_pool, lemma_first_fit_ascends, lemma_first_fit_picks,
    START_PORT,
};
use crate::db::models::MacAddressesView;
use crate::db::{
    begin, commit, device_index, get_ports_by_mac, get_used_ports, insert_mac_address,
    insert_ports, insert_ports_outcome, knows, new_assignments, owned_ports, rollback,
    used_ports, well_formed, Store, StoreView,
};
use crate::errors::ErrorKind;
use crate::types::{with_numbers, Port, Ports, Register, RegisterView};
use vstd::prelude::*;

verus! {

/// What the engine is configured with.
#[derive(Clone, Copy, Debug, PartialEq, Eq, Structural)]
pub struct Engine {
    /// The baseline of the pool.
    pub start_port: u32,
    /// How often a new allocation is tried after the store refused one
    /// because another registration had taken one of its ports.
    pub max_retries: u32,
}

/// How often the engine allocates anew unless it is configured otherwise.
pub const DEFAULT_RETRIES: u32 = 3;

impl Default for Engine {
    /// The engine over the pool that begins at `START_PORT`.
    fn default() -> (engine: Engine)
        ensures
            engine == (Engine { start_port: START_PORT, max_retries: DEFAULT_RETRIES }),
    {
        Engine { start_port: START_PORT, max_retries: DEFAULT_RETRIES }
    }
}

/// A call that the engine needs made on the store, for the device of the
/// request.
#[derive(Debug)]
pub enum Command {
    /// Store the device with its key.
    InsertMacAddress,
    /// Read the ports of the device.
    GetPortsByMac,
    /// Read the ports that are assigned, over all devices.
    GetUsedPorts,
    /// Assign these ports to the device, all of them or none.
    InsertPorts(Vec<Port>),
}

/// What the store answered, by call.
#[derive(Debug)]
pub enum Reply {
    MacAddressInserted(Result<(), ErrorKind>),
    PortsByMac(Result<Vec<Port>, ErrorKind>),
    UsedPorts(Result<Vec<u32>, ErrorKind>),
    PortsInserted(Result<(), ErrorKind>),
}

/// A registration that succeeded.
#[derive(Debug)]
pub struct Registered {
    /// The ports of the device, in the order of the request where the device
    /// is new, else as the store holds them.
    pub ports: Vec<Port>,
    /// Whether the device is new, so that its key is to be handed on to the
    /// key service.
    pub forward_key: bool,
}

/// What the driver does next.
#[derive(Debug)]
pub enum Action {
    /// Make this call and hand back the reply.
    Ask(Command),
    /// Stop: keep what was stored and answer with the ports, or undo what was
    /// stored and report the failure.
    Finish(Result<Registered, ErrorKind>),
}

/// How far a registration has come.
#[derive(Debug)]
pub enum State {
    /// The device is being stored.
    AwaitingDevice,
    /// The device was known; its ports are being read.
    AwaitingOwnPorts,
    /// The device is new; the used ports are being read.
    AwaitingUsedPorts { retries: u32 },
    /// These ports were allocated and are being stored.
    AwaitingInsert { ports: Vec<Port>, retries: u32 },
    /// The registration has finished.
    Done,
}

/// A call on the store as a mathematical value.
pub ghost enum CommandView {
    InsertMacAddress,
    GetPortsByMac,
    GetUsedPorts,
    InsertPorts(Seq<Port>),
}

/// A reply of the store as a mathematical value.
pub ghost enum ReplyView {
    MacAddressInserted(Result<(), ErrorKind>),
    PortsByMac(Result<Seq<Port>, ErrorKind>),
    UsedPorts(Result<Seq<u32>, ErrorKind>),
    PortsInserted(Result<(), ErrorKind>),
}

/// A registration that succeeded, as a mathematical value.
pub ghost struct RegisteredView {
    pub ports: Seq<Port>,
    pub forward_key: bool,
}

/// What the driver does next, as a mathematical value.
pub ghost enum ActionView {
    Ask(CommandView),
    Finish(Result<RegisteredView, ErrorKind>),
}

/// How far a registration has come, as a mathematical value.
pub ghost enum StateView {
    AwaitingDevice,
    AwaitingOwnPorts,
    AwaitingUsedPorts { retries: u32 },
    AwaitingInsert { ports: Seq<Port>, retries: u32 },
    Done,
}

impl View for Command {
    type V = CommandView;

    open spec fn view(&self) -> CommandView {
        match self {
            Command::InsertMacAddress => CommandView::InsertMacAddress,
            Command::GetPortsByMac => CommandView::GetPortsByMac,
            Command::GetUsedPorts => CommandView::GetUsedPorts,
            Command::InsertPorts(ports) => CommandView::InsertPorts(ports@),
        }
    }
}

/// A list of port numbers, or the failure to read it, as a mathematical
/// value.
pub open spec fn numbers_result_view(r: Result<Vec<u32>, ErrorKind>) -> Result<Seq<u32>, ErrorKind> {
    match r {
        Ok(ports) => Ok(ports@),
        Err(kind) => Err(kind),
    }
}

/// A list of ports, or the failure to read it, as a mathematical value.
pub open spec fn ports_result_view(r: Result<Vec<Port>, ErrorKind>) -> Result<Seq<Port>, ErrorKind> {
    match r {
        Ok(ports) => Ok(ports@),
        Err(kind) => Err(kind),
    }
}

impl View for Reply {
    type V = ReplyView;

    open spec fn view(&self) -> ReplyView {
        match self {
            Reply::MacAddressInserted(r) => ReplyView::MacAddressInserted(*r),
            Reply::PortsByMac(r) => ReplyView::PortsByMac(ports_result_view(*r)),
            Reply::UsedPorts(r) => ReplyView::UsedPorts(numbers_result_view(*r)),
            Reply::PortsInserted(r) => ReplyView::PortsInserted(*r),
        }
    }
}

impl View for Registered {
    type V = RegisteredView;

    open spec fn view(&self) -> RegisteredView {
        RegisteredView { ports: self.ports@, forward_key: self.forward_key }
    }
}

/// The end of a registration as a mathematical value.
pub open spec fn outcome_view(r: Result<Registered, ErrorKind>) -> Result<
    RegisteredView,
    ErrorKind,
> {
    match r {
        Ok(registered) => Ok(registered@),
        Err(kind) => Err(kind),
    }
}

impl View for Action {
    type V = ActionView;

    open spec fn view(&self) -> ActionView {
        match self {
            Action::Ask(command) => ActionView::Ask(command@),
            Action::Finish(r) => ActionView::Finish(outcome_view(*r)),
        }
    }
}

impl View for State {
    type V = StateView;

    open spec fn view(&self) -> StateView {
        match self {
            State::AwaitingDevice => StateView::AwaitingDevice,
            State::AwaitingOwnPorts => StateView::AwaitingOwnPorts,
            State::AwaitingUsedPorts { retries } => StateView::AwaitingUsedPorts {
                retries: *retries,
            },
            State::AwaitingInsert { ports, retries } => StateView::AwaitingInsert {
                ports: ports@,
                retries: *retries,
            },
            State::Done => StateView::Done,
        }
    }
}

/// The failure with which a registration ends.
pub open spec fn failed(kind: ErrorKind) -> (StateView, ActionView) {
    (StateView::Done, ActionView::Finish(Err(kind)))
}

/// What follows when the store has answered the call to store the device.
///
/// A device that the store holds already is no failure: the registration goes
/// on to read the ports that the device has.
pub open spec fn after_device(engine: Engine, r: Result<(), ErrorKind>) -> (StateView, ActionView) {
    match r {
        Ok(_) => (
            StateView::AwaitingUsedPorts { retries: engine.max_retries },
            ActionView::Ask(CommandView::GetUsedPorts),
        ),
        Err(ErrorKind::Conflict) => (
            StateView::AwaitingOwnPorts,
            ActionView::Ask(CommandView::GetPortsByMac),
        ),
        Err(kind) => failed(kind),
    }
}

/// What follows when the store has answered with the ports of a known device:
/// they are the result, whatever was requested, and the key is not handed on.
pub open spec fn after_own_ports(r: Result<Seq<Port>, ErrorKind>) -> (StateView, ActionView) {
    match r {
        Ok(ports) => (
            StateView::Done,
            ActionView::Finish(Ok(RegisteredView { ports, forward_key: false })),
        ),
        Err(kind) => failed(kind),
    }
}

/// What follows when the store has answered with the used ports: the
/// requested ports get their numbers by first fit and are handed to the
/// store, or the pool is exhausted.
pub open spec fn after_used_ports(
    engine: Engine,
    requested: Seq<Port>,
    retries: u32,
    r: Result<Seq<u32>, ErrorKind>,
) -> (StateView, ActionView) {
    match r {
        Ok(used) => if requested.len() <= free_ports(used, engine.start_port).len() {
            let ports = with_numbers(
                requested,
                first_fit_picks(used, requested.len(), engine.start_port),
            );
            (
                StateView::AwaitingInsert { ports, retries },
                ActionView::Ask(CommandView::InsertPorts(ports)),
            )
        } else {
            failed(ErrorKind::ResourceExhausted)
        },
        Err(kind) => failed(kind),
    }
}

/// What follows when the store has answered the call to assign the ports.
///
/// Where the store refuses because a port was taken in the meantime, the
/// used ports are read again and the allocation is made anew, as long as
/// retries are left.
pub open spec fn after_insert(ports: Seq<Port>, retries: u32, r: Result<(), ErrorKind>) -> (
    StateView,
    ActionView,
) {
    match r {
        Ok(_) => (
            StateView::Done,
            ActionView::Finish(Ok(RegisteredView { ports, forward_key: true })),
        ),
        Err(ErrorKind::Conflict) => if retries > 0 {
            (
                StateView::AwaitingUsedPorts { retries: (retries - 1) as u32 },
                ActionView::Ask(CommandView::GetUsedPorts),
            )
        } else {
            failed(ErrorKind::Conflict)
        },
        Err(kind) => failed(kind),
    }
}

/// The state and the action that follow a reply of the store.
///
/// A reply that does not answer the call that was asked for ends the
/// registration with `ErrorKind::InvalidInput`, and so does any reply after
/// the end.
pub open spec fn step_model(engine: Engine, state: StateView, requested: Seq<Port>, reply: ReplyView) -> (
    StateView,
    ActionView,
) {
    match (state, reply) {
        (StateView::AwaitingDevice, ReplyView::MacAddressInserted(r)) => after_device(engine, r),
        (StateView::AwaitingOwnPorts, ReplyView::PortsByMac(r)) => after_own_ports(r),
        (StateView::AwaitingUsedPorts { retries }, ReplyView::UsedPorts(r)) => after_used_ports(
            engine,
            requested,
            retries,
            r,
        ),
        (StateView::AwaitingInsert { ports, retries }, ReplyView::PortsInserted(r)) => after_insert(
            ports,
            retries,
            r,
        ),
        _ => failed(ErrorKind::InvalidInput),
    }
}

/// The state and the action with which a registration begins.
///
/// A request without a hardware address names no device: it is refused with
/// `ErrorKind::InvalidInput` before the store is asked anything. For any
/// other request the store is asked to store the device.
pub open spec fn start_model(request: RegisterView) -> (StateView, ActionView) {
    if request.address_mac.len() == 0 {
        failed(ErrorKind::InvalidInput)
    } else {
        (StateView::AwaitingDevice, ActionView::Ask(CommandView::InsertMacAddress))
    }
}

/// How many calls on the store a registration has before it at most: every
/// allocation costs two, one to read the used ports and one to store the
/// picks, and a new allocation is made only as often as retries are left.
pub open spec fn calls_left(engine: Engine, state: StateView) -> nat {
    match state {
        StateView::AwaitingDevice => (2 * engine.max_retries + 3) as nat,
        StateView::AwaitingUsedPorts { retries } => (2 * retries + 2) as nat,
        StateView::AwaitingInsert { retries, .. } => (2 * retries + 1) as nat,
        StateView::AwaitingOwnPorts => 1,
        StateView::Done => 0,
    }
}

/// A registration ends: every reply of the store brings it nearer to its
/// end, whatever the reply is, and it finishes exactly when no call is left.
pub proof fn lemma_step_makes_progress(
    engine: Engine,
    state: StateView,
    requested: Seq<Port>,
    reply: ReplyView,
)
    ensures
        ({
            let (next, action) = step_model(engine, state, requested, reply);
            &&& state != StateView::Done ==> calls_left(engine, next) < calls_left(engine, state)
            &&& action is Finish <==> next == StateView::Done
        }),
{
}

impl Engine {
    /// The state and the action with which the registration `request`
    /// begins.
    pub fn start(&self, request: &Register) -> (next: (State, Action))
        ensures
            (next.0@, next.1@) == start_model(request@),
    {
        if request.address_mac.as_str().is_empty() {
            (State::Done, Action::Finish(Err(ErrorKind::InvalidInput)))
        } else {
            (State::AwaitingDevice, Action::Ask(Command::InsertMacAddress))
        }
    }

    /// The state and the action that follow the reply `reply` of the store,
    /// for the registration `request`.
    pub fn step(&self, state: State, request: &Register, reply: Reply) -> (next: (State, Action))
        ensures
            (next.0@, next.1@) == step_model(*self, state@, request@.ports, reply@),
    {
        match (state, reply) {
            (State::AwaitingDevice, Reply::MacAddressInserted(r)) => match r {
                Ok(_) => (
                    State::AwaitingUsedPorts { retries: self.max_retries },
                    Action::Ask(Command::GetUsedPorts),
                ),
                Err(ErrorKind::Conflict) => (
                    State::AwaitingOwnPorts,
                    Action::Ask(Command::GetPortsByMac),
                ),
                Err(kind) => (State::Done, Action::Finish(Err(kind))),
            },
            (State::AwaitingOwnPorts, Reply::PortsByMac(r)) => match r {
                Ok(ports) => (
                    State::Done,
                    Action::Finish(Ok(Registered { ports, forward_key: false })),
                ),
                Err(kind) => (State::Done, Action::Finish(Err(kind))),
            },
            (State::AwaitingUsedPorts { retries }, Reply::UsedPorts(r)) => match r {
                Ok(used) => {
                    let mut ports = Ports(request.ports.get());
                    match ports.assign(&used, self.start_port) {
                        Ok(_) => (
                            State::AwaitingInsert { ports: ports.get(), retries },
                            Action::Ask(Command::InsertPorts(ports.0)),
                        ),
                        Err(kind) => (State::Done, Action::Finish(Err(kind))),
                    }
                },
                Err(kind) => (State::Done, Action::Finish(Err(kind))),
            },
            (State::AwaitingInsert { ports, retries }, Reply::PortsInserted(r)) => match r {
                Ok(_) => (
                    State::Done,
                    Action::Finish(Ok(Registered { ports, forward_key: true })),
                ),
                Err(ErrorKind::Conflict) => if retries > 0 {
                    (
                        State::AwaitingUsedPorts { retries: retries - 1 },
                        Action::Ask(Command::GetUsedPorts),
                    )
                } else {
                    (State::Done, Action::Finish(Err(ErrorKind::Conflict)))
                },
                Err(kind) => (State::Done, Action::Finish(Err(kind))),
            },
            _ => (State::Done, Action::Finish(Err(ErrorKind::InvalidInput))),
        }
    }
}

/// The contents of a store after it has stored the device of a request.
pub open spec fn with_device(s: StoreView, request: RegisterView) -> StoreView {
    StoreView {
        devices: s.devices.push(
            MacAddressesView { address_mac: request.address_mac, ssh_key: request.ssh_key },
        ),
        assignments: s.assignments,
    }
}

/// What the store answers to a call for the device of a request, and what it
/// holds afterwards.
pub open spec fn perform_model(s: StoreView, request: RegisterView, command: CommandView) -> (
    StoreView,
    ReplyView,
) {
    let mac = request.address_mac;
    match command {
        CommandView::InsertMacAddress => if knows(s, mac) {
            (s, ReplyView::MacAddressInserted(Err(ErrorKind::Conflict)))
        } else {
            (with_device(s, request), ReplyView::MacAddressInserted(Ok(())))
        },
        CommandView::GetPortsByMac => (s, ReplyView::PortsByMac(Ok(owned_ports(s, mac)))),
        CommandView::GetUsedPorts => (s, ReplyView::UsedPorts(Ok(used_ports(s)))),
        CommandView::InsertPorts(ports) => match insert_ports_outcome(s, mac, ports) {
            Ok(_) => (
                StoreView {
                    devices: s.devices,
                    assignments: s.assignments + new_assignments(device_index(s, mac), ports),
                },
                ReplyView::PortsInserted(Ok(())),
            ),
            Err(kind) => (s, ReplyView::PortsInserted(Err(kind))),
        },
    }
}

/// Makes a call of the engine on the store, for the device of `request`.
pub fn perform(store: &mut Store, request: &Register, command: &Command) -> (reply: Reply)
    ensures
        (final(store)@, reply@) == perform_model(old(store)@, request@, command@),
        final(store).saved() == old(store).saved(),
        well_formed(old(store)@),
        well_formed(final(store)@),
{
    match command {
        Command::InsertMacAddress => Reply::MacAddressInserted(
            insert_mac_address(store, request.address_mac.clone(), request.ssh_key.clone()),
        ),
        Command::GetPortsByMac => Reply::PortsByMac(
            get_ports_by_mac(store, request.address_mac.clone()),
        ),
        Command::GetUsedPorts => Reply::UsedPorts(get_used_ports(store)),
        Command::InsertPorts(ports) => Reply::PortsInserted(
            insert_ports(store, request.address_mac.clone(), ports),
        ),
    }
}

/// What a registration returns, and what the store holds afterwards.
///
/// A request without a hardware address is refused. A device that the store
/// holds keeps its ports and the store stays as it is, whatever is requested.
/// A new device is stored together with the ports that first fit picks for
/// it, or, where the pool is exhausted, not at all.
pub open spec fn register_model(engine: Engine, s: StoreView, request: RegisterView) -> (
    StoreView,
    Result<RegisteredView, ErrorKind>,
) {
    let mac = request.address_mac;
    if mac.len() == 0 {
        (s, Err(ErrorKind::InvalidInput))
    } else if knows(s, mac) {
        (s, Ok(RegisteredView { ports: owned_ports(s, mac), forward_key: false }))
    } else if request.ports.len() > free_ports(used_ports(s), engine.start_port).len() {
        (s, Err(ErrorKind::ResourceExhausted))
    } else {
        let picks = first_fit_picks(used_ports(s), request.ports.len(), engine.start_port);
        (
            StoreView {
                devices: with_device(s, request).devices,
                assignments: s.assignments + new_assignments(
                    s.devices.len() as int,
                    with_numbers(request.ports, picks),
                ),
            },
            Ok(RegisteredView { ports: with_numbers(request.ports, picks), forward_key: true }),
        )
    }
}

/// The ports that first fit picks exist, are not assigned, and differ from
/// one another: the store accepts them for a device that it holds.
proof fn lemma_picks_accepted(s: StoreView, mac: Seq<char>, requested: Seq<Port>, start: u32)
    requires
        knows(s, mac),
        requested.len() <= free_ports(used_ports(s), start).len(),
    ensures
        insert_ports_outcome(
            s,
            mac,
            with_numbers(requested, first_fit_picks(used_ports(s), requested.len(), start)),
        ) == Ok::<(), ErrorKind>(()),
{
    let picks = first_fit_picks(used_ports(s), requested.len(), start);
    let ports = with_numbers(requested, picks);
    lemma_first_fit_picks(used_ports(s), requested.len(), start);
    lemma_first_fit_ascends(used_ports(s), start, picks);
    assert forall|i: int| 0 <= i < ports.len() implies in_pool(start, (#[trigger] ports[i]).port)
        && !used_ports(s).contains(ports[i].port) by {
        assert(free_ports(used_ports(s), start).contains(picks[i]));
    }
    assert forall|i: int, j: int| 0 <= i < j < ports.len() implies (#[trigger] ports[i]).port != (
    #[trigger] ports[j]).port by {
        assert(picks[i] < picks[j]);
    }
}

/// Whether a registration that began on the contents `before` has come to
/// where `register_model` says, given the contents `now` of the store.
spec fn on_track(
    engine: Engine,
    before: StoreView,
    request: RegisterView,
    now: StoreView,
    state: StateView,
    action: ActionView,
) -> bool {
    let mac = request.address_mac;
    let model = register_model(engine, before, request);
    match state {
        StateView::AwaitingDevice => mac.len() > 0 && now == before && action == ActionView::Ask(
            CommandView::InsertMacAddress,
        ),
        StateView::AwaitingOwnPorts => mac.len() > 0 && now == before && knows(before, mac)
            && action == ActionView::Ask(CommandView::GetPortsByMac),
        StateView::AwaitingUsedPorts { retries } => mac.len() > 0 && now == with_device(
            before,
            request,
        ) && !knows(before, mac) && action == ActionView::Ask(CommandView::GetUsedPorts),
        StateView::AwaitingInsert { ports, retries } => {
            &&& mac.len() > 0
            &&& now == with_device(before, request)
            &&& !knows(before, mac)
            &&& request.ports.len() <= free_ports(used_ports(before), engine.start_port).len()
            &&& ports == with_numbers(
                request.ports,
                first_fit_picks(used_ports(before), request.ports.len(), engine.start_port),
            )
            &&& action == ActionView::Ask(CommandView::InsertPorts(ports))
        },
        StateView::Done => match action {
            ActionView::Finish(Ok(registered)) => now == model.0 && model.1 == Ok::<
                RegisteredView,
                ErrorKind,
            >(registered),
            ActionView::Finish(Err(kind)) => before == model.0 && model.1 == Err::<
                RegisteredView,
                ErrorKind,
            >(kind),
            ActionView::Ask(_) => false,
        },
    }
}

/// A call on the store and the step that follows it keep a registration on
/// track.
proof fn lemma_stays_on_track(
    engine: Engine,
    before: StoreView,
    request: RegisterView,
    now: StoreView,
    state: StateView,
    command: CommandView,
)
    requires
        well_formed(now),
        on_track(engine, before, request, now, state, ActionView::Ask(command)),
    ensures
        ({
            let (then, reply) = perform_model(now, request, command);
            let (next, action) = step_model(engine, state, request.ports, reply);
            on_track(engine, before, request, then, next, action)
        }),
{
    let mac = request.address_mac;
    match state {
        StateView::AwaitingDevice => {},
        StateView::AwaitingOwnPorts => {},
        StateView::AwaitingUsedPorts { retries } => {
            assert(used_ports(now) == used_ports(before));
        },
        StateView::AwaitingInsert { ports, retries } => {
            assert(used_ports(now) == used_ports(before));
            let place = before.devices.len() as int;
            assert(now.devices[place].address_mac == mac);
            assert(knows(now, mac));
            lemma_picks_accepted(now, mac, request.ports, engine.start_port);
            let chosen = device_index(now, mac);
            if chosen < place {
                assert(now.devices[chosen].address_mac != now.devices[place].address_mac);
            }
        },
        StateView::Done => {},
    }
}

/// Registers a device in the store.
///
/// A request without a hardware address is refused with
/// `ErrorKind::InvalidInput`. A device that the store holds is answered with
/// the ports that it has, in the order in which they were stored, and the
/// store stays as it is. A new device is stored together with the ports that
/// first fit picks for its request; where the pool holds too few free ports
/// for that, the call fails with `ErrorKind::ResourceExhausted` and the store
/// stays as it was. A transaction that was open on the store is committed
/// first.
pub fn register(engine: &Engine, store: &mut Store, request: &Register) -> (res: Result<
    Registered,
    ErrorKind,
>)
    ensures
        (final(store)@, outcome_view(res)) == register_model(*engine, old(store)@, request@),
        final(store).saved() is None,
        well_formed(old(store)@),
        well_formed(final(store)@),
{
    begin(store);
    let ghost before = store@;
    let first = engine.start(request);
    let mut state = first.0;
    let mut action = first.1;
    loop
        invariant
            before == old(store)@,
            store.saved() == Some(before),
            well_formed(before),
            well_formed(store@),
            on_track(*engine, before, request@, store@, state@, action@),
        decreases calls_left(*engine, state@),
    {
        match action {
            Action::Finish(outcome) => {
                match outcome {
                    Ok(registered) => {
                        commit(store);
                        return Ok(registered);
                    },
                    Err(kind) => {
                        rollback(store);
                        return Err(kind);
                    },
                }
            },
            Action::Ask(command) => {
                proof {
                    lemma_stays_on_track(*engine, before, request@, store@, state@, command@);
                    lemma_step_makes_progress(
                        *engine,
                        state@,
                        request@.ports,
                        perform_model(store@, request@, command@).1,
                    );
                }
                let reply = perform(store, request, &command);
                let next = engine.step(state, request, reply);
                state = next.0;
                action = next.1;
            },
        }
    }
}

} // verus!
