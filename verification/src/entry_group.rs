//! The lifecycle of an entry group: one batch of service records that the
//! daemon registers, and withdraws, as a whole.
//!
//! The group here does not talk to the daemon. Whoever does hands over what
//! the daemon answered, and the group decides what that answer means: which
//! failure it is, what the batch now holds, and in which state it stands.

use crate::error::{describe, is_daemon_error, is_registration_error, spec_describe, Error};
use crate::txt_record::TxtRecord;
use crate::wire::wire;
use vstd::prelude::*;

verus! {

/// Where a batch stands between its allocation and its release.
#[derive(Debug, Clone, Copy, PartialEq, Eq, Structural)]
pub enum GroupState {
    /// No record has been added, or all were withdrawn.
    Empty,
    /// At least one record is staged and none is submitted.
    Staged,
    /// The batch is submitted and the daemon has not reported on it yet.
    Committing,
    /// The daemon announced every record of the batch.
    Established,
    /// Another host already announces a record of the batch.
    Collision,
    /// The daemon gave the batch up.
    Failed,
}

/// What can happen to a batch.
#[derive(Debug, Clone, Copy, PartialEq, Eq, Structural)]
pub enum GroupEvent {
    /// The daemon took one more record into the batch.
    RecordStaged,
    /// The daemon took the batch for registration.
    Committed,
    /// The batch was withdrawn.
    Reset,
    /// The daemon reports the batch as announced.
    Established,
    /// The daemon reports a name collision.
    Collision,
    /// The daemon reports a failure.
    Failed,
}

/// The state that follows `state` on `event`. A withdrawal empties the batch
/// wherever it stands. A staged record makes an empty batch a staged one, a
/// commit makes a staged batch a committing one, and a report of the daemon
/// settles a committing batch. Any other event meets a batch that it does not
/// concern, and leaves the state as it is.
pub open spec fn next_state(state: GroupState, event: GroupEvent) -> GroupState {
    match (state, event) {
        (_, GroupEvent::Reset) => GroupState::Empty,
        (GroupState::Empty, GroupEvent::RecordStaged) => GroupState::Staged,
        (GroupState::Staged, GroupEvent::Committed) => GroupState::Committing,
        (GroupState::Committing, GroupEvent::Established) => GroupState::Established,
        (GroupState::Committing, GroupEvent::Collision) => GroupState::Collision,
        (GroupState::Committing, GroupEvent::Failed) => GroupState::Failed,
        _ => state,
    }
}

/// The state of a batch that began in `start` and met `events` in their order.
pub open spec fn state_after(start: GroupState, events: Seq<GroupEvent>) -> GroupState
    decreases events.len(),
{
    if events.len() == 0 {
        start
    } else {
        next_state(state_after(start, events.drop_last()), events.last())
    }
}

/// The state in which a report of the daemon leaves a committing batch.
pub open spec fn settled(report: GroupEvent) -> GroupState {
    match report {
        GroupEvent::Established => GroupState::Established,
        GroupEvent::Collision => GroupState::Collision,
        _ => GroupState::Failed,
    }
}

/// Whether the event is a report of the daemon on a committed batch.
pub open spec fn is_report(event: GroupEvent) -> bool {
    event is Established || event is Collision || event is Failed
}

/// Whatever a batch has met, a withdrawal leaves it empty.
pub proof fn lemma_reset_empties(start: GroupState, events: Seq<GroupEvent>)
    ensures
        state_after(start, events.push(GroupEvent::Reset)) == GroupState::Empty,
{
}

/// A run of `n` staged records.
pub open spec fn staging(n: nat) -> Seq<GroupEvent> {
    Seq::new(n, |i: int| GroupEvent::RecordStaged)
}

/// A batch goes from empty to staged with its first record and stays staged
/// with every further one, a commit makes a staged batch a committing one,
/// and each report of the daemon leaves a committing batch in the state that
/// it names: a collision in `Collision`, never in `Failed`.
pub proof fn lemma_commit_cycle(records: nat, report: GroupEvent)
    requires
        records > 0,
        is_report(report),
    ensures
        state_after(GroupState::Empty, staging(records)) == GroupState::Staged,
        next_state(GroupState::Staged, GroupEvent::Committed) == GroupState::Committing,
        next_state(GroupState::Committing, report) == settled(report),
        report is Collision ==> settled(report) == GroupState::Collision,
    decreases records,
{
    let front = staging((records - 1) as nat);
    assert(staging(records).drop_last() =~= front);
    if records > 1 {
        lemma_commit_cycle((records - 1) as nat, report);
    }
}

/// A report of the daemon changes a committing batch only, and an empty batch
/// is left by nothing but a staged record.
pub proof fn lemma_events_out_of_turn(state: GroupState, event: GroupEvent)
    ensures
        is_report(event) && state != GroupState::Committing ==> next_state(state, event) == state,
        event != GroupEvent::RecordStaged ==> next_state(GroupState::Empty, event)
            == GroupState::Empty,
        event != GroupEvent::Reset && state != GroupState::Empty ==> next_state(state, event)
            != GroupState::Empty,
{
}

/// Computes the state that follows `state` on `event`.
pub fn step(state: GroupState, event: GroupEvent) -> (next: GroupState)
    ensures
        next == next_state(state, event),
{
    match (state, event) {
        (_, GroupEvent::Reset) => GroupState::Empty,
        (GroupState::Empty, GroupEvent::RecordStaged) => GroupState::Staged,
        (GroupState::Staged, GroupEvent::Committed) => GroupState::Committing,
        (GroupState::Committing, GroupEvent::Established) => GroupState::Established,
        (GroupState::Committing, GroupEvent::Collision) => GroupState::Collision,
        (GroupState::Committing, GroupEvent::Failed) => GroupState::Failed,
        _ => state,
    }
}

/// What the daemon reports of a committed batch.
#[derive(Debug, PartialEq, Eq)]
pub enum Outcome {
    /// Every record of the batch is announced.
    Established,
    /// Another host already announces a record of the batch.
    Collision,
    /// The daemon gave the batch up, for the reason it names.
    Failed { reason: String },
}

impl Outcome {
    /// The event that this report is for the batch.
    pub open spec fn event(&self) -> GroupEvent {
        match self {
            Outcome::Established => GroupEvent::Established,
            Outcome::Collision => GroupEvent::Collision,
            Outcome::Failed { reason } => GroupEvent::Failed,
        }
    }
}

/// What the daemon answered to a request: its return code, and the text that
/// it gives for that code.
#[derive(Debug, PartialEq, Eq)]
pub struct DaemonReply {
    pub code: i32,
    pub text: String,
}

impl DaemonReply {
    /// The daemon refuses with a negative code and accepts with any other.
    pub open spec fn accepted(&self) -> bool {
        self.code >= 0
    }
}

/// The view of a text that may be left out.
pub open spec fn text_view(text: Option<String>) -> Option<Seq<char>> {
    match text {
        Some(t) => Some(t@),
        None => None,
    }
}

/// The view of a payload that may be left out.
pub open spec fn payload_view(payload: Option<Vec<u8>>) -> Option<Seq<u8>> {
    match payload {
        Some(p) => Some(p@),
        None => None,
    }
}

/// A service record as a mathematical value. The TXT payload stands in its
/// wire form.
pub struct ServiceView {
    pub interface: i32,
    pub protocol: i32,
    pub flags: u32,
    pub name: Seq<char>,
    pub kind: Seq<char>,
    pub domain: Option<Seq<char>>,
    pub host: Option<Seq<char>>,
    pub port: u16,
    pub txt: Option<Seq<u8>>,
}

/// A subtype record as a mathematical value.
pub struct SubtypeView {
    pub interface: i32,
    pub protocol: i32,
    pub flags: u32,
    pub name: Seq<char>,
    pub kind: Seq<char>,
    pub domain: Option<Seq<char>>,
    pub subtype: Seq<char>,
}

/// A record of a batch as a mathematical value.
pub enum RecordView {
    Service(ServiceView),
    Subtype(SubtypeView),
}

/// What `ManagedAvahiEntryGroup::new` works on: the session that was asked
/// for a batch, the handle that it gave, which is zero when it gave none, and
/// the text of the session's last error.
#[derive(Debug, PartialEq, Eq)]
pub struct ManagedAvahiEntryGroupParams {
    pub client: usize,
    pub handle: usize,
    pub error: String,
}

/// One service to announce: on which interface and protocol, with which
/// publishing flags, under which name, type, domain and host, on which port,
/// and with which TXT record. The domain and the host may be left to the
/// daemon, and the TXT record may be left out.
#[derive(Debug, PartialEq, Eq)]
pub struct AddServiceParams<'a> {
    pub interface: i32,
    pub protocol: i32,
    pub flags: u32,
    pub name: String,
    pub kind: String,
    pub domain: Option<String>,
    pub host: Option<String>,
    pub port: u16,
    pub txt: Option<&'a TxtRecord>,
}

impl<'a> View for AddServiceParams<'a> {
    type V = ServiceView;

    /// The record that these parameters stage: the TXT record goes into it
    /// as the bytes that it encodes to now.
    open spec fn view(&self) -> ServiceView {
        ServiceView {
            interface: self.interface,
            protocol: self.protocol,
            flags: self.flags,
            name: self.name@,
            kind: self.kind@,
            domain: text_view(self.domain),
            host: text_view(self.host),
            port: self.port,
            txt: match self.txt {
                Some(record) => Some(wire(record@)),
                None => None,
            },
        }
    }
}

/// One subtype to announce for a service of the given name, type and domain.
#[derive(Debug, PartialEq, Eq)]
pub struct AddServiceSubtypeParams {
    pub interface: i32,
    pub protocol: i32,
    pub flags: u32,
    pub name: String,
    pub kind: String,
    pub domain: Option<String>,
    pub subtype: String,
}

impl View for AddServiceSubtypeParams {
    type V = SubtypeView;

    open spec fn view(&self) -> SubtypeView {
        SubtypeView {
            interface: self.interface,
            protocol: self.protocol,
            flags: self.flags,
            name: self.name@,
            kind: self.kind@,
            domain: text_view(self.domain),
            subtype: self.subtype@,
        }
    }
}

/// A service as the batch holds it. Its TXT payload is the wire form that the
/// record had when the service was staged.
#[derive(Debug, PartialEq, Eq)]
pub struct ServiceRecord {
    pub interface: i32,
    pub protocol: i32,
    pub flags: u32,
    pub name: String,
    pub kind: String,
    pub domain: Option<String>,
    pub host: Option<String>,
    pub port: u16,
    pub txt: Option<Vec<u8>>,
}

impl View for ServiceRecord {
    type V = ServiceView;

    open spec fn view(&self) -> ServiceView {
        ServiceView {
            interface: self.interface,
            protocol: self.protocol,
            flags: self.flags,
            name: self.name@,
            kind: self.kind@,
            domain: text_view(self.domain),
            host: text_view(self.host),
            port: self.port,
            txt: payload_view(self.txt),
        }
    }
}

/// A record as the batch holds it.
#[derive(Debug, PartialEq, Eq)]
pub enum Record {
    Service(ServiceRecord),
    Subtype(AddServiceSubtypeParams),
}

impl View for Record {
    type V = RecordView;

    open spec fn view(&self) -> RecordView {
        match self {
            Record::Service(service) => RecordView::Service(service@),
            Record::Subtype(subtype) => RecordView::Subtype(subtype@),
        }
    }
}

/// The records that a list of held records stands for.
pub open spec fn records_view(records: Seq<Record>) -> Seq<RecordView> {
    Seq::new(records.len(), |i: int| records[i]@)
}

/// One batch of service records on a daemon session. It keeps the session,
/// the handle by which the daemon knows the batch, the state in which the
/// batch stands, and the records that the daemon took into it since it was
/// last empty.
#[derive(Debug)]
pub struct ManagedAvahiEntryGroup {
    client: usize,
    inner: usize,
    state: GroupState,
    records: Vec<Record>,
}

impl ManagedAvahiEntryGroup {
    #[verifier::type_invariant]
    spec fn well_formed(self) -> bool {
        &&& self.inner != 0
        &&& self.state == GroupState::Empty <==> self.records@.len() == 0
    }

    /// The session that the batch belongs to.
    pub closed spec fn spec_client(&self) -> usize {
        self.client
    }

    /// The handle of the batch.
    pub closed spec fn spec_handle(&self) -> usize {
        self.inner
    }

    /// The state in which the batch stands.
    pub closed spec fn spec_state(&self) -> GroupState {
        self.state
    }

    /// The records of the batch, in the order in which they were staged.
    pub closed spec fn spec_records(&self) -> Seq<RecordView> {
        records_view(self.records@)
    }

    /// Takes a batch over from the session. Where the session gave no handle
    /// there is no group, and the failure carries the session's own text.
    pub fn new(params: ManagedAvahiEntryGroupParams) -> (r: Result<Self, Error>)
        ensures
            match r {
                Ok(group) => {
                    &&& params.handle != 0
                    &&& group.spec_client() == params.client
                    &&& group.spec_handle() == params.handle
                    &&& group.spec_state() == GroupState::Empty
                    &&& group.spec_records() == Seq::<RecordView>::empty()
                },
                Err(e) => params.handle == 0 && is_daemon_error(
                    e,
                    spec_describe("could not initialize AvahiEntryGroup"@, params.error@),
                ),
            },
    {
        if params.handle == 0 {
            Err(
                Error::DaemonError {
                    message: describe("could not initialize AvahiEntryGroup", params.error.as_str()),
                },
            )
        } else {
            Ok(
                ManagedAvahiEntryGroup {
                    client: params.client,
                    inner: params.handle,
                    state: GroupState::Empty,
                    records: Vec::new(),
                },
            )
        }
    }

    /// The session that the batch belongs to.
    pub fn client(&self) -> (client: usize)
        ensures
            client == self.spec_client(),
    {
        self.client
    }

    /// The handle by which the daemon knows the batch. It is never zero.
    pub fn handle(&self) -> (handle: usize)
        ensures
            handle == self.spec_handle(),
            handle != 0,
    {
        proof {
            use_type_invariant(self);
        }
        self.inner
    }

    /// The state in which the batch stands. It is `Empty` exactly when the
    /// batch holds no record.
    pub fn state(&self) -> (state: GroupState)
        ensures
            state == self.spec_state(),
            state == GroupState::Empty <==> self.spec_records().len() == 0,
    {
        proof {
            use_type_invariant(self);
        }
        self.state
    }

    /// The records that the daemon took into the batch since it was last
    /// empty, in the order in which they were staged.
    pub fn records(&self) -> (records: &Vec<Record>)
        ensures
            records_view(records@) == self.spec_records(),
    {
        &self.records
    }
    /// What the daemon's answer to the question whether the batch is empty
    /// means. The daemon answers for the batch as it stands with the daemon at
    /// that moment, whatever was staged here: any answer but zero says that no
    /// record of the batch is registered.
    pub fn is_empty(&self, answer: i32) -> (empty: bool)
        ensures
            empty == (answer != 0),
    {
        answer != 0
    }

    fn stage(&mut self, record: Record)
        ensures
            final(self).spec_client() == old(self).spec_client(),
            final(self).spec_handle() == old(self).spec_handle(),
            final(self).spec_state() == next_state(old(self).spec_state(), GroupEvent::RecordStaged),
            final(self).spec_records() == old(self).spec_records().push(record@),
    {
        proof {
            use_type_invariant(&*self);
        }
        let mut taken = ManagedAvahiEntryGroup {
            client: self.client,
            inner: self.inner,
            state: GroupState::Empty,
            records: Vec::new(),
        };
        std::mem::swap(self, &mut taken);
        let ManagedAvahiEntryGroup { client, inner, state, records } = taken;
        let mut records = records;
        records.push(record);
        *self = ManagedAvahiEntryGroup {
            client,
            inner,
            state: step(state, GroupEvent::RecordStaged),
            records,
        };
    }

    fn settle(&mut self, event: GroupEvent)
        requires
            event != GroupEvent::Reset,
            event != GroupEvent::RecordStaged,
        ensures
            final(self).spec_client() == old(self).spec_client(),
            final(self).spec_handle() == old(self).spec_handle(),
            final(self).spec_state() == next_state(old(self).spec_state(), event),
            final(self).spec_records() == old(self).spec_records(),
    {
        proof {
            use_type_invariant(&*self);
        }
        self.state = step(self.state, event);
    }

    /// Takes note of the daemon's answer to the staging of one service. An
    /// accepted service joins the batch, with its TXT record in the wire form
    /// that it has now, and an empty batch becomes a staged one. A refused
    /// service leaves the batch as it was, and the failure carries the
    /// daemon's code and text.
    pub fn add_service(&mut self, params: AddServiceParams<'_>, reply: &DaemonReply) -> (r: Result<
        (),
        Error,
    >)
        ensures
            final(self).spec_client() == old(self).spec_client(),
            final(self).spec_handle() == old(self).spec_handle(),
            reply.accepted() ==> {
                &&& r is Ok
                &&& final(self).spec_state() == next_state(
                    old(self).spec_state(),
                    GroupEvent::RecordStaged,
                )
                &&& final(self).spec_records() == old(self).spec_records().push(
                    RecordView::Service(params@),
                )
            },
            !reply.accepted() ==> {
                &&& r is Err
                &&& is_registration_error(
                    r->Err_0,
                    reply.code,
                    spec_describe("could not register service"@, reply.text@),
                )
                &&& final(self).spec_state() == old(self).spec_state()
                &&& final(self).spec_records() == old(self).spec_records()
            },
    {
        if reply.code < 0 {
            return Err(
                Error::RegistrationError {
                    code: reply.code,
                    message: describe("could not register service", reply.text.as_str()),
                },
            );
        }
        let txt = match params.txt {
            Some(record) => Some(record.to_wire_bytes()),
            None => None,
        };
        let service = ServiceRecord {
            interface: params.interface,
            protocol: params.protocol,
            flags: params.flags,
            name: params.name,
            kind: params.kind,
            domain: params.domain,
            host: params.host,
            port: params.port,
            txt,
        };
        self.stage(Record::Service(service));
        Ok(())
    }

    /// Takes note of the daemon's answer to the staging of one subtype. An
    /// accepted subtype joins the batch, and an empty batch becomes a staged
    /// one. A refused subtype leaves the batch as it was, and the failure
    /// carries the daemon's code and text.
    pub fn add_service_subtype(
        &mut self,
        params: AddServiceSubtypeParams,
        reply: &DaemonReply,
    ) -> (r: Result<(), Error>)
        ensures
            final(self).spec_client() == old(self).spec_client(),
            final(self).spec_handle() == old(self).spec_handle(),
            reply.accepted() ==> {
                &&& r is Ok
                &&& final(self).spec_state() == next_state(
                    old(self).spec_state(),
                    GroupEvent::RecordStaged,
                )
                &&& final(self).spec_records() == old(self).spec_records().push(
                    RecordView::Subtype(params@),
                )
            },
            !reply.accepted() ==> {
                &&& r is Err
                &&& is_registration_error(
                    r->Err_0,
                    reply.code,
                    spec_describe("could not register service subtype"@, reply.text@),
                )
                &&& final(self).spec_state() == old(self).spec_state()
                &&& final(self).spec_records() == old(self).spec_records()
            },
    {
        if reply.code < 0 {
            return Err(
                Error::RegistrationError {
                    code: reply.code,
                    message: describe("could not register service subtype", reply.text.as_str()),
                },
            );
        }
        self.stage(Record::Subtype(params));
        Ok(())
    }

    /// Takes note of the daemon's answer to the commit of the batch. An
    /// accepted commit makes a staged batch a committing one; what becomes of
    /// it the daemon reports later. A refused commit leaves the state as it
    /// was, and the failure carries the daemon's text. Either way the batch
    /// keeps every record.
    pub fn commit(&mut self, reply: &DaemonReply) -> (r: Result<(), Error>)
        ensures
            final(self).spec_client() == old(self).spec_client(),
            final(self).spec_handle() == old(self).spec_handle(),
            final(self).spec_records() == old(self).spec_records(),
            reply.accepted() ==> r is Ok && final(self).spec_state() == next_state(
                old(self).spec_state(),
                GroupEvent::Committed,
            ),
            !reply.accepted() ==> {
                &&& r is Err
                &&& is_daemon_error(
                    r->Err_0,
                    spec_describe("could not commit service"@, reply.text@),
                )
                &&& final(self).spec_state() == old(self).spec_state()
            },
    {
        if reply.code < 0 {
            return Err(
                Error::DaemonError {
                    message: describe("could not commit service", reply.text.as_str()),
                },
            );
        }
        self.settle(GroupEvent::Committed);
        Ok(())
    }

    /// Takes note of what the daemon reports of the batch. A report settles a
    /// committing batch; a batch in any other state is not waiting for one and
    /// stays as it is.
    pub fn state_changed(&mut self, outcome: &Outcome)
        ensures
            final(self).spec_client() == old(self).spec_client(),
            final(self).spec_handle() == old(self).spec_handle(),
            final(self).spec_records() == old(self).spec_records(),
            final(self).spec_state() == next_state(old(self).spec_state(), outcome.event()),
    {
        let event = match outcome {
            Outcome::Established => GroupEvent::Established,
            Outcome::Collision => GroupEvent::Collision,
            Outcome::Failed { reason: _ } => GroupEvent::Failed,
        };
        self.settle(event);
    }

    /// Withdraws every record of the batch, whatever its state: the batch is
    /// empty again and keeps its handle.
    pub fn reset(&mut self)
        ensures
            final(self).spec_client() == old(self).spec_client(),
            final(self).spec_handle() == old(self).spec_handle(),
            final(self).spec_state() == GroupState::Empty,
            final(self).spec_state() == next_state(old(self).spec_state(), GroupEvent::Reset),
            final(self).spec_records() == Seq::<RecordView>::empty(),
    {
        proof {
            use_type_invariant(&*self);
        }
        *self = ManagedAvahiEntryGroup {
            client: self.client,
            inner: self.inner,
            state: GroupState::Empty,
            records: Vec::new(),
        };
    }

    /// Gives the batch up, in whatever state it stands, and hands out its
    /// handle, which whoever holds the daemon's side has to free. The group is
    /// gone after that, so that no handle is handed out twice.
    pub fn release(self) -> (handle: usize)
        ensures
            handle == self.spec_handle(),
            handle != 0,
    {
        proof {
            use_type_invariant(&self);
        }
        self.inner
    }
}

} // verus!
