//! The compositor: its socket protocol, the sockets that it is handed, and what its exit means.

use std::collections::HashMap;

use vstd::pervasive::unreached;
use vstd::prelude::*;
use vstd::utf8::encode_utf8;

use crate::env::with_fd;
use crate::process::Launch;
use crate::service::SessionRequest;
use crate::text::decimal;

verus! {

/// A message on the socket between the session and the compositor.
#[derive(Debug)]
pub enum Message {
    SetEnv { variables: HashMap<String, String> },
    NewPrivilegedClient { count: usize },
}

/// The number that two bytes hold, the low one first.
pub open spec fn le_u16(b: Seq<u8>) -> int {
    b[0] + 256 * b[1]
}

/// The number that two bytes hold, the high one first.
pub open spec fn be_u16(b: Seq<u8>) -> int {
    256 * b[0] + b[1]
}

/// The length that two bytes hold in this order.
pub open spec fn length_of(low_first: bool, b: Seq<u8>) -> int {
    if low_first {
        le_u16(b)
    } else {
        be_u16(b)
    }
}

/// The low sixteen bits of `n` as two bytes, the low one first.
pub open spec fn le_bytes(n: nat) -> Seq<u8> {
    seq![(n % 256) as u8, ((n / 256) % 256) as u8]
}

/// The low sixteen bits of `n` as two bytes, the high one first.
pub open spec fn be_bytes(n: nat) -> Seq<u8> {
    seq![((n / 256) % 256) as u8, (n % 256) as u8]
}

/// A message body with its length before it, in this order.
pub open spec fn frame(low_first: bool, body: Seq<u8>) -> Seq<u8> {
    (if low_first {
        le_bytes(body.len())
    } else {
        be_bytes(body.len())
    }) + body
}

/// Messages one behind the other, each with its length before it.
pub open spec fn frames(low_first: bool, bodies: Seq<Seq<u8>>) -> Seq<u8>
    decreases bodies.len(),
{
    if bodies.len() == 0 {
        Seq::empty()
    } else {
        frame(low_first, bodies.first()) + frames(low_first, bodies.drop_first())
    }
}

/// How many bytes the protocol reads next: a length of two bytes, or a body of the known length.
pub open spec fn wanted(length: Option<u16>) -> nat {
    match length {
        Some(n) => n as nat,
        None => 2,
    }
}

/// How far a reader of the protocol is: the length of the body that it reads, where it is known,
/// and the bytes of the length or body that it has got so far.
pub struct ReadState {
    pub length: Option<u16>,
    pub pending: Seq<u8>,
}

impl ReadState {
    /// Something is outstanding, or a body without bytes is due.
    pub open spec fn wf(self) -> bool {
        self.pending.len() < wanted(self.length) || wanted(self.length) == self.pending.len() == 0
    }

    /// How many bytes are outstanding.
    pub open spec fn outstanding(self) -> int {
        wanted(self.length) - self.pending.len()
    }
}

/// The state before anything was read, and behind each message.
pub open spec fn between_messages() -> ReadState {
    ReadState { length: None, pending: Seq::empty() }
}

/// One read. It brings `bytes`, which may be a part of what is outstanding; the first result is the
/// message that they complete.
pub open spec fn received(low_first: bool, state: ReadState, bytes: Seq<u8>) -> (
    Option<Seq<u8>>,
    ReadState,
) {
    let got = state.pending + bytes;
    if got.len() < wanted(state.length) {
        (None, ReadState { length: state.length, pending: got })
    } else {
        match state.length {
            Some(_) => (Some(got), between_messages()),
            None => (
                None,
                ReadState {
                    length: Some(length_of(low_first, got) as u16),
                    pending: Seq::empty(),
                },
            ),
        }
    }
}

/// The message that a read has completed, as a list.
pub open spec fn completed(message: Option<Seq<u8>>) -> Seq<Seq<u8>> {
    match message {
        Some(body) => seq![body],
        None => Seq::empty(),
    }
}

/// The messages in a stream of bytes, from a state on, and the state at the end of the stream.
pub open spec fn messages(low_first: bool, state: ReadState, stream: Seq<u8>) -> (
    Seq<Seq<u8>>,
    ReadState,
)
    decreases
            stream.len(),
            (if wanted(state.length) == 0 {
                1int
            } else {
                0int
            }),
{
    let n = state.outstanding();
    if !state.wf() {
        (Seq::empty(), state)
    } else if stream.len() < n {
        (Seq::empty(), received(low_first, state, stream).1)
    } else {
        let (message, now) = received(low_first, state, stream.take(n));
        let (later, end) = messages(low_first, now, stream.skip(n));
        (completed(message) + later, end)
    }
}

/// Whether each of `reads` brings no more than what is outstanding when it is made.
pub open spec fn reads_fit(low_first: bool, state: ReadState, reads: Seq<Seq<u8>>) -> bool
    decreases reads.len(),
{
    reads.len() == 0 || {
        &&& reads.first().len() <= state.outstanding()
        &&& reads_fit(
            low_first,
            received(low_first, state, reads.first()).1,
            reads.drop_first(),
        )
    }
}

/// The messages that reads complete, one read after the other, and the state behind the last.
pub open spec fn read_by(low_first: bool, state: ReadState, reads: Seq<Seq<u8>>) -> (
    Seq<Seq<u8>>,
    ReadState,
)
    decreases reads.len(),
{
    if reads.len() == 0 {
        (Seq::empty(), state)
    } else {
        let (message, now) = received(low_first, state, reads.first());
        let (later, end) = read_by(low_first, now, reads.drop_first());
        (completed(message) + later, end)
    }
}

/// What reads bring, one behind the other.
pub open spec fn brought(reads: Seq<Seq<u8>>) -> Seq<u8>
    decreases reads.len(),
{
    if reads.len() == 0 {
        Seq::empty()
    } else {
        reads.first() + brought(reads.drop_first())
    }
}

/// A read that is cut short is resumed: to read a part of what is outstanding and then what
/// follows it is to read both at once.
pub proof fn law_cut_read_is_resumed(low_first: bool, state: ReadState, a: Seq<u8>, b: Seq<u8>)
    requires
        state.wf(),
        a.len() < state.outstanding(),
        a.len() + b.len() <= state.outstanding(),
    ensures
        received(low_first, state, a).0 is None,
        received(low_first, state, a).1.wf(),
        received(low_first, received(low_first, state, a).1, b) == received(
            low_first,
            state,
            a + b,
        ),
{
    assert(state.pending + a + b =~= state.pending + (a + b));
}

/// One read takes its part of the stream: what it completes, and what the rest of the stream then
/// holds, is what the whole stream holds.
pub proof fn law_read_takes_its_part(
    low_first: bool,
    state: ReadState,
    bytes: Seq<u8>,
    rest: Seq<u8>,
)
    requires
        state.wf(),
        bytes.len() <= state.outstanding(),
    ensures
        received(low_first, state, bytes).1.wf(),
        ({
            let (message, now) = received(low_first, state, bytes);
            let (later, end) = messages(low_first, now, rest);
            messages(low_first, state, bytes + rest) == (completed(message) + later, end)
        }),
{
    let n = state.outstanding();
    let stream = bytes + rest;
    let (message, now) = received(low_first, state, bytes);
    if bytes.len() == n {
        assert(stream.take(n) =~= bytes);
        assert(stream.skip(n) =~= rest);
    } else {
        let left = now.outstanding();
        let (later, end) = messages(low_first, now, rest);
        assert(completed(message) + later =~= later);
        if rest.len() < left {
            assert(state.pending + stream =~= now.pending + rest);
        } else {
            assert(state.pending + stream.take(n) =~= now.pending + rest.take(left));
            assert(stream.skip(n) =~= rest.skip(left));
        }
    }
}

/// Messages do not depend on how the stream is cut into reads: the reads complete the first
/// messages of the stream, and what follows the reads holds the others.
pub proof fn law_messages_survive_every_cut(
    low_first: bool,
    state: ReadState,
    reads: Seq<Seq<u8>>,
    rest: Seq<u8>,
)
    requires
        state.wf(),
        reads_fit(low_first, state, reads),
    ensures
        read_by(low_first, state, reads).1.wf(),
        ({
            let (read, now) = read_by(low_first, state, reads);
            let (later, end) = messages(low_first, now, rest);
            messages(low_first, state, brought(reads) + rest) == (read + later, end)
        }),
    decreases reads.len(),
{
    if reads.len() == 0 {
        assert(brought(reads) + rest =~= rest);
        let (later, end) = messages(low_first, state, rest);
        assert(Seq::<Seq<u8>>::empty() + later =~= later);
    } else {
        let tail = brought(reads.drop_first()) + rest;
        assert(brought(reads) + rest =~= reads.first() + tail);
        law_read_takes_its_part(low_first, state, reads.first(), tail);
        let (message, now) = received(low_first, state, reads.first());
        law_messages_survive_every_cut(low_first, now, reads.drop_first(), rest);
        let (read, after) = read_by(low_first, now, reads.drop_first());
        let (later, end) = messages(low_first, after, rest);
        assert(completed(message) + (read + later) =~= completed(message) + read + later);
    }
}

proof fn lemma_frame_is_read_back(low_first: bool, body: Seq<u8>, rest: Seq<u8>)
    requires
        body.len() < 65536,
    ensures
        ({
            let (later, end) = messages(low_first, between_messages(), rest);
            messages(low_first, between_messages(), frame(low_first, body) + rest) == (
                seq![body] + later,
                end,
            )
        }),
{
    let n = body.len();
    let stream = frame(low_first, body) + rest;
    let head = stream.take(2);
    assert((n % 256) + 256 * ((n / 256) % 256) == n) by (nonlinear_arith)
        requires
            n < 65536,
    ;
    assert(head =~= if low_first {
        le_bytes(n)
    } else {
        be_bytes(n)
    });
    assert(Seq::<u8>::empty() + head =~= head);
    assert(length_of(low_first, head) == n);
    let due = ReadState { length: Some(n as u16), pending: Seq::empty() };
    assert(received(low_first, between_messages(), head) == (None::<Seq<u8>>, due));
    assert(stream.skip(2) =~= body + rest);
    law_read_takes_its_part(low_first, due, body, rest);
    assert(Seq::<u8>::empty() + body =~= body);
    let (all, end) = messages(low_first, due, body + rest);
    assert(Seq::<Seq<u8>>::empty() + all =~= all);
}

/// Messages that are written with their lengths before them are read back, all of them, unchanged
/// and in order, by a reader that takes the lengths in the same order, which then waits for the
/// next length.
pub proof fn law_frames_are_read_back(low_first: bool, bodies: Seq<Seq<u8>>)
    requires
        forall|i: int| 0 <= i < bodies.len() ==> (#[trigger] bodies[i]).len() < 65536,
    ensures
        messages(low_first, between_messages(), frames(low_first, bodies)) == (
            bodies,
            between_messages(),
        ),
    decreases bodies.len(),
{
    if bodies.len() == 0 {
        let empty = Seq::<u8>::empty();
        assert(between_messages().pending + empty =~= empty);
        assert(bodies =~= Seq::<Seq<u8>>::empty());
    } else {
        let tail = bodies.drop_first();
        assert forall|i: int| 0 <= i < tail.len() implies (#[trigger] tail[i]).len() < 65536 by {
            assert(tail[i] == bodies[i + 1]);
        }
        law_frames_are_read_back(low_first, tail);
        lemma_frame_is_read_back(low_first, bodies.first(), frames(low_first, tail));
        assert(seq![bodies.first()] + tail =~= bodies);
    }
}

/// What became of a message from the compositor.
pub enum Handled<T> {
    /// The environment goes to the receiver that waits for it.
    DeliverEnv(T, HashMap<String, String>),
    /// The environment was delivered before.
    Ignored,
    /// The message could not be read.
    Unknown,
}

/// What becomes of a message where `env_tx` waits for the environment, and who then still waits.
/// A message that could not be read is `None`.
pub open spec fn handling<T>(env_tx: Option<T>, message: Option<Message>) -> (
    Handled<T>,
    Option<T>,
) {
    match (message, env_tx) {
        (Some(m), Some(tx)) => (Handled::DeliverEnv(tx, m->variables), None),
        (Some(m), None) => (Handled::Ignored, None),
        (None, _) => (Handled::Unknown, env_tx),
    }
}

/// The environment is delivered once: the first message that brings one is delivered to the
/// receiver, and none after it.
pub proof fn law_environment_is_delivered_once<T>(tx: T, first: Message, later: Option<Message>)
    requires
        first is SetEnv,
        later matches Some(m) ==> m is SetEnv,
    ensures
        handling(Some(tx), Some(first)).0 == Handled::DeliverEnv(tx, first->variables),
        !(handling(handling(Some(tx), Some(first)).1, later).0 is DeliverEnv),
        handling(handling(Some(tx), Some(first)).1, later).1 is None,
{
}

/// The receiving side of the socket. `env_tx` is the receiver that waits for the environment, and
/// `low_first` says whether the low byte of a length comes first.
pub struct IpcState<T> {
    env_tx: Option<T>,
    low_first: bool,
    length: Option<u16>,
    buf: Vec<u8>,
}

impl<T> IpcState<T> {
    /// The receiver that still waits for the environment.
    pub closed spec fn env_tx(self) -> Option<T> {
        self.env_tx
    }

    /// Whether the low byte of a length comes first.
    pub closed spec fn low_first(self) -> bool {
        self.low_first
    }

    /// The length of the body that is read, where it is known.
    pub closed spec fn length(self) -> Option<u16> {
        self.length
    }

    /// The bytes of the length or body that were got so far.
    pub closed spec fn pending(self) -> Seq<u8> {
        self.buf@
    }

    /// How far the reading is.
    pub open spec fn state(self) -> ReadState {
        ReadState { length: self.length(), pending: self.pending() }
    }

    /// Something is outstanding, or a body without bytes is due.
    pub open spec fn wf(self) -> bool {
        self.state().wf()
    }

    /// The state before anything was read, on a machine that has the low byte of a number first or
    /// not.
    pub fn new(env_tx: T, low_first: bool) -> (r: Self)
        ensures
            r.wf(),
            r.env_tx() == Some(env_tx),
            r.low_first() == low_first,
            r.state() == between_messages(),
    {
        let r = IpcState { env_tx: Some(env_tx), low_first, length: None, buf: Vec::new() };
        assert(r.state().pending =~= Seq::<u8>::empty());
        r
    }

    /// How many bytes are outstanding: the next read brings so many at most.
    pub fn bytes_wanted(&self) -> (r: usize)
        requires
            self.wf(),
        ensures
            r == self.state().outstanding(),
    {
        match self.length {
            Some(length) => length as usize - self.buf.len(),
            None => 2 - self.buf.len(),
        }
    }

    /// Takes the bytes of one read, which may be cut short at any place: what they leave
    /// outstanding is left to the reads that follow. The two bytes of a length, once they are
    /// there, say how long the body is; a body, once it is complete, is returned.
    pub fn receive_ipc(&mut self, bytes: &[u8]) -> (r: Option<Vec<u8>>)
        requires
            old(self).wf(),
            bytes@.len() <= old(self).state().outstanding(),
        ensures
            final(self).wf(),
            final(self).env_tx() == old(self).env_tx(),
            final(self).low_first() == old(self).low_first(),
            (r.deep_view(), final(self).state()) == received(
                old(self).low_first(),
                old(self).state(),
                bytes@,
            ),
    {
        let ghost got = self.buf@ + bytes@;
        let missing: usize = self.bytes_wanted() - bytes.len();
        self.buf.extend_from_slice(bytes);
        assert(self.buf@ =~= got);
        if missing > 0 {
            return None;
        }
        match self.length {
            Some(_) => {
                let mut body: Vec<u8> = Vec::new();
                body.append(&mut self.buf);
                self.length = None;
                assert(body.deep_view() =~= got);
                assert(self.buf@ =~= Seq::<u8>::empty());
                Some(body)
            },
            None => {
                let first: u16 = self.buf[0] as u16;
                let second: u16 = self.buf[1] as u16;
                let length: u16 = if self.low_first {
                    first + 256 * second
                } else {
                    256 * first + second
                };
                self.length = Some(length);
                self.buf.clear();
                assert(self.buf@ =~= Seq::<u8>::empty());
                None
            },
        }
    }

    /// Handles a message from the compositor, `None` where its bytes are no message. The first
    /// environment is delivered, later ones are not.
    pub fn parse_and_handle_ipc(&mut self, message: Option<Message>) -> (r: Handled<T>)
        requires
            message matches Some(m) ==> m is SetEnv,
        ensures
            final(self).state() == old(self).state(),
            final(self).low_first() == old(self).low_first(),
            (r, final(self).env_tx()) == handling(old(self).env_tx(), message),
    {
        match message {
            Some(Message::SetEnv { variables }) => {
                match self.env_tx.take() {
                    Some(tx) => Handled::DeliverEnv(tx, variables),
                    None => Handled::Ignored,
                }
            },
            Some(Message::NewPrivilegedClient { .. }) => unreached(),
            None => Handled::Unknown,
        }
    }
}

/// The message that announces as many file descriptors as there are streams.
pub fn new_privileged_client<S>(streams: &[S]) -> (r: Message)
    ensures
        r == (Message::NewPrivilegedClient { count: streams@.len() as usize }),
{
    Message::NewPrivilegedClient { count: streams.len() }
}

/// One act of handing sockets to the compositor.
pub enum Outgoing<S> {
    /// Write these bytes to the socket.
    Write(Vec<u8>),
    /// Wait this long for the message to be taken.
    Pause { micros: u64 },
    /// Send these bytes with these streams' file descriptors, which are set to blocking.
    SendFds { bytes: Vec<u8>, streams: Vec<S> },
}

/// What hands streams to the compositor, in order, where `json` is the message that announces
/// them: its length in two bytes, the message, a pause, and one zero byte with the descriptors.
pub fn send_fd<S>(json: &str, streams: Vec<S>) -> (r: Vec<Outgoing<S>>)
    ensures
        r@.len() == 4,
        r@[0] matches Outgoing::Write(head) && head@ == le_bytes(encode_utf8(json@).len()),
        r@[1] matches Outgoing::Write(body) && body@ == encode_utf8(json@),
        r@[2] == (Outgoing::<S>::Pause { micros: 100 }),
        r@[3] matches Outgoing::SendFds { bytes, streams: sent } && bytes@ == seq![0u8] && sent
            == streams,
{
    let body: Vec<u8> = json.as_bytes_vec();
    let n: usize = body.len();
    let mut head: Vec<u8> = Vec::new();
    head.push((n % 256) as u8);
    head.push(((n / 256) % 256) as u8);
    assert(head@ =~= le_bytes(encode_utf8(json@).len()));
    let mut zero: Vec<u8> = Vec::new();
    zero.push(0);
    assert(zero@ =~= seq![0u8]);
    let mut out: Vec<Outgoing<S>> = Vec::new();
    out.push(Outgoing::Write(head));
    out.push(Outgoing::Write(body));
    out.push(Outgoing::Pause { micros: 100 });
    out.push(Outgoing::SendFds { bytes: zero, streams });
    out
}

/// The bytes that announce sockets are the frame of the announcing message, low byte first.
pub proof fn law_announcement_is_framed(head: Seq<u8>, body: Seq<u8>, json: Seq<char>)
    requires
        head == le_bytes(encode_utf8(json).len()),
        body == encode_utf8(json),
    ensures
        head + body == frame(true, encode_utf8(json)),
{
}

/// Keeps the compositor's end of a new socket pair for the compositor, and gives the environment
/// that names the client's end, whose file descriptor is `client_fd`.
pub fn create_privileged_socket<S>(
    sockets: &mut Vec<S>,
    comp_socket: S,
    client_fd: i32,
    env_vars: &[(String, String)],
) -> (r: Vec<(String, String)>)
    ensures
        final(sockets)@ == old(sockets)@.push(comp_socket),
        r.deep_view() == env_vars.deep_view().push(
            ("WAYLAND_SOCKET"@, decimal(client_fd as int)),
        ),
{
    sockets.push(comp_socket);
    with_fd(env_vars, "WAYLAND_SOCKET", client_fd)
}

/// How the compositor is launched: with the file descriptor of its end of the session's socket.
pub fn run_compositor(command: String, args: Vec<String>, comp_fd: i32) -> (r: Launch)
    ensures
        r.executable == command,
        r.args == args,
        r.env_vars.deep_view() == seq![("COSMIC_SESSION_SOCK"@, decimal(comp_fd as int))],
{
    let none: Vec<(String, String)> = Vec::new();
    let env_vars = with_fd(none.as_slice(), "COSMIC_SESSION_SOCK", comp_fd);
    assert(env_vars.deep_view() =~= seq![("COSMIC_SESSION_SOCK"@, decimal(comp_fd as int))]);
    Launch { executable: command, args, env_vars }
}

/// What the exit of the compositor asks for.
pub open spec fn exit_request(err_code: Option<i32>) -> SessionRequest {
    if err_code == Some(0i32) {
        SessionRequest::Exit
    } else {
        SessionRequest::Restart
    }
}

/// What the exit of the compositor asks of the session, where `err_code` is its exit code and
/// `None` an end by a signal: only an exit with code zero ends the session.
pub fn on_compositor_exit(err_code: Option<i32>) -> (r: SessionRequest)
    ensures
        r == exit_request(err_code),
{
    match err_code {
        Some(0) => SessionRequest::Exit,
        Some(_) => SessionRequest::Restart,
        None => SessionRequest::Restart,
    }
}

/// What the loop that serves the compositor's socket has seen.
pub enum SocketEvent<S> {
    /// A read ended, with success or not.
    Read(bool),
    /// Streams are to be handed to the compositor.
    Streams(Vec<S>),
    /// Streams were handed over, with success or not.
    Sent(bool),
}

/// What the loop that serves the compositor's socket does next.
pub enum SocketStep<S> {
    /// Wait for the next read or the next streams.
    Wait,
    /// Hand these streams to the compositor.
    Send(Vec<S>),
    /// End the loop.
    Stop,
    /// End the loop with an error.
    Fail,
}

/// One turn of the loop that serves the compositor's socket: a failed read ends it, a failed
/// hand-over ends it with an error.
pub fn serve_socket<S>(event: SocketEvent<S>) -> (r: SocketStep<S>)
    ensures
        r == match event {
            SocketEvent::Read(true) => SocketStep::Wait,
            SocketEvent::Read(false) => SocketStep::Stop,
            SocketEvent::Streams(streams) => SocketStep::Send(streams),
            SocketEvent::Sent(true) => SocketStep::Wait,
            SocketEvent::Sent(false) => SocketStep::Fail,
        },
{
    match event {
        SocketEvent::Read(ok) => if ok {
            SocketStep::Wait
        } else {
            SocketStep::Stop
        },
        SocketEvent::Streams(streams) => SocketStep::Send(streams),
        SocketEvent::Sent(ok) => if ok {
            SocketStep::Wait
        } else {
            SocketStep::Fail
        },
    }
}

/// A length is the number that its two bytes make, each weighted by its place.
pub proof fn law_length_is_the_number_of_its_bytes(first: u8, second: u8)
    ensures
        length_of(true, seq![first, second]) == first + 256 * second,
        length_of(false, seq![first, second]) == 256 * first + second,
{
}

/// The two bytes that are written for a length make its low sixteen bits, in either order, and what
/// follows them in a frame is the body, unchanged.
pub proof fn law_frame_is_a_length_and_the_body(low_first: bool, body: Seq<u8>)
    ensures
        le_bytes(body.len()).len() == 2,
        le_bytes(body.len())[0] + 256 * le_bytes(body.len())[1] == body.len() % 65536,
        frame(low_first, body).len() == 2 + body.len(),
        frame(low_first, body).skip(2) == body,
        low_first ==> frame(low_first, body)[0] + 256 * frame(low_first, body)[1] == body.len()
            % 65536,
        !low_first ==> 256 * frame(low_first, body)[0] + frame(low_first, body)[1] == body.len()
            % 65536,
{
    let n = body.len();
    assert((n % 256) + 256 * ((n / 256) % 256) == n % 65536) by (nonlinear_arith);
    assert(frame(low_first, body).skip(2) =~= body);
}

/// Whole reads: the two bytes of a length say how long the next body is, and a body of that length
/// is the message, behind which the next length is due. So many bytes are outstanding as the length
/// or the body lacks.
pub proof fn law_whole_reads_alternate(
    low_first: bool,
    first: u8,
    second: u8,
    n: u16,
    body: Seq<u8>,
    pending: Seq<u8>,
)
    requires
        body.len() == n,
    ensures
        ({
            let at_length = ReadState { length: None, pending: Seq::empty() };
            let at_body = ReadState { length: Some(n), pending: Seq::empty() };
            let (nothing, now) = received(low_first, at_length, seq![first, second]);
            &&& nothing is None
            &&& now.pending.len() == 0
            &&& now.length is Some
            &&& now.length->0 == if low_first {
                first + 256 * second
            } else {
                256 * first + second
            }
            &&& received(low_first, at_body, body) == (Some(body), at_length)
            &&& (ReadState { length: None, pending }).outstanding() == 2 - pending.len()
            &&& (ReadState { length: Some(n), pending }).outstanding() == n - pending.len()
        }),
{
    assert(Seq::<u8>::empty() + seq![first, second] =~= seq![first, second]);
    assert(Seq::<u8>::empty() + body =~= body);
}

/// A message that cannot be read changes nothing: whoever waits for the environment waits on, and
/// gets the next one. A second environment is ignored.
pub proof fn law_unreadable_message_changes_nothing<T>(
    waiting: Option<T>,
    tx: T,
    message: Message,
)
    requires
        message is SetEnv,
    ensures
        handling(waiting, None) == (Handled::<T>::Unknown, waiting),
        handling(handling(Some(tx), None).1, Some(message)) == (
            Handled::DeliverEnv(tx, message->variables),
            None::<T>,
        ),
        handling(None::<T>, Some(message)) == (Handled::<T>::Ignored, None::<T>),
{
}

/// Only an exit with code zero asks for the end of the session.
pub proof fn law_only_a_clean_exit_ends_the_session(code: i32)
    ensures
        exit_request(Some(code)) == SessionRequest::Exit <==> code == 0,
        exit_request(None) == SessionRequest::Restart,
{
}

/// What is written before sockets are handed over is the message behind its length, low byte first,
/// and then the sockets are sent, all of them and in order, with one zero byte.
pub proof fn law_sockets_are_announced_before_they_are_sent<S>(
    json: &str,
    streams: Vec<S>,
    acts: Vec<Outgoing<S>>,
)
    requires
        call_ensures(send_fd::<S>, (json, streams), acts),
    ensures
        acts@.len() == 4,
        acts@[0] is Write,
        acts@[1] is Write,
        acts@[0]->Write_0@ + acts@[1]->Write_0@ == frame(true, encode_utf8(json@)),
        acts@[0]->Write_0@.len() == 2,
        acts@[0]->Write_0@[0] + 256 * acts@[0]->Write_0@[1] == encode_utf8(json@).len() % 65536,
        acts@[1]->Write_0@ == encode_utf8(json@),
        acts@[2] == (Outgoing::<S>::Pause { micros: 100 }),
        acts@[3] is SendFds,
        acts@[3]->streams == streams,
        acts@[3]->bytes@ == seq![0u8],
{
    law_frame_is_a_length_and_the_body(true, encode_utf8(json@));
    assert(acts@[0]->Write_0@ + acts@[1]->Write_0@ =~= frame(true, encode_utf8(json@)));
}

/// The message that announces sockets counts those that are sent behind it.
pub proof fn law_announced_count_is_what_is_sent<S>(
    json: &str,
    counted: &[S],
    streams: Vec<S>,
    message: Message,
    acts: Vec<Outgoing<S>>,
)
    requires
        counted@ == streams@,
        call_ensures(new_privileged_client::<S>, (counted,), message),
        call_ensures(send_fd::<S>, (json, streams), acts),
    ensures
        message is NewPrivilegedClient,
        message->count == streams@.len(),
        acts@[3] is SendFds,
        acts@[3]->streams@.len() == streams@.len(),
{
    assert(streams.len() == streams@.len());
}

/// The compositor runs as it is given, with nothing in its environment but the number of its socket,
/// and only its exit with code zero asks the session to exit.
pub proof fn law_compositor_runs_as_given(
    command: String,
    args: Vec<String>,
    comp_fd: i32,
    launch: Launch,
    code: Option<i32>,
    request: SessionRequest,
)
    requires
        call_ensures(run_compositor, (command, args, comp_fd), launch),
        call_ensures(on_compositor_exit, (code,), request),
    ensures
        launch.executable == command,
        launch.args == args,
        launch.env_vars@.len() == 1,
        launch.env_vars@[0].0@ == "COSMIC_SESSION_SOCK"@,
        launch.env_vars@[0].1@ == decimal(comp_fd as int),
        request == SessionRequest::Exit <==> code == Some(0i32),
{
    let env = launch.env_vars.deep_view();
    assert(env.len() == launch.env_vars@.len());
    assert(env[0] == (launch.env_vars@[0].0@, launch.env_vars@[0].1@));
}

/// The loop that serves the socket hands over the streams that it gets, as they are, and ends on the
/// first failure, with an error where a hand-over failed.
pub proof fn law_socket_loop_ends_on_failure<S>(
    streams: Vec<S>,
    ok: bool,
    sending: SocketStep<S>,
    read: SocketStep<S>,
    sent: SocketStep<S>,
)
    requires
        call_ensures(serve_socket::<S>, (SocketEvent::Streams(streams),), sending),
        call_ensures(serve_socket::<S>, (SocketEvent::Read(ok),), read),
        call_ensures(serve_socket::<S>, (SocketEvent::Sent(ok),), sent),
    ensures
        sending == SocketStep::Send(streams),
        ok ==> read is Wait && sent is Wait,
        !ok ==> read is Stop && sent is Fail,
{
}

} // verus!
