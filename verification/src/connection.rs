//! The state of one HTTP/2 connection and what it does about what comes in.
//!
//! Nothing here reads or writes a socket. Whoever runs the connection reads
//! the preface and the frames, hands them in, and sends what comes back:
//! `receive_preface` and `receive_frame` say which frames to send and what
//! to hand to the user, `frame_to_wire` turns a frame into octets as long
//! as the connection is open.

use vstd::prelude::*;
use vstd::string::StringSliceAdditionalSpecFns;
use crate::error::{Code, Error, Level};
use crate::frames::{
    Fault, Frame, FrameHeader, FrameView, GoAwayFrame, SendFrame, SettingsFrame, FLAG_ACK,
    TYPE_SETTINGS,
};
use crate::hpack::{Decoder, Encoder};
use crate::hpack::dynamic_table::TableView;
use crate::hpack::encoder::{block_encoding, field_specs, pending_after};
use crate::settings::{
    applied, applied_to_defaults, lemma_applied_to_defaults, SettingKey, Settings,
};
use crate::sliceable::bytes_eq;

verus! {

/// What a client sends first on a connection.
pub const PREFACE: &'static str = "PRI * HTTP/2.0\r\n\r\nSM\r\n\r\n";

/// The longest that a frame waits before it is offered to a full send queue
/// again, in milliseconds, is below this.
pub const BACKOFF_LIMIT_MILLIS: u64 = 30;

/// The digit of base 62 with the value `d`: `0` to `9`, then `A` to `Z`,
/// then `a` to `z`.
pub open spec fn base62_digit(d: int) -> char {
    if d < 10 {
        ((48 + d) as u8) as char
    } else if d < 36 {
        ((55 + d) as u8) as char
    } else {
        ((61 + d) as u8) as char
    }
}

/// The number `n` written in base 62, the highest digit first, without
/// leading zeros.
pub open spec fn base62_text(n: nat) -> Seq<char>
    decreases n,
{
    if n < 62 {
        seq![base62_digit(n as int)]
    } else {
        base62_text(n / 62).push(base62_digit((n % 62) as int))
    }
}

/// The first number that the default source of the crate `random` gives
/// when it is seeded with `seed`.
pub uninterp spec fn first_random(seed: u64) -> u64;

/// Calls `base62::encode`. The crate documents that the result is the number
/// in base 62 with the digits `0` to `9`, `A` to `Z`, `a` to `z` in this
/// order; its examples show the highest digit first and no leading zeros.
#[verifier::external_body]
fn base62_encode(id: u64) -> (s: String)
    ensures
        s@ == base62_text(id as nat),
{
    base62::encode(id)
}

/// Calls `random::default` with the seed and reads one `u64` from the
/// source, which is a xorshift128+ generator seeded with `seed - 1` and
/// `seed + 1`: the result depends on the seed alone.
#[verifier::external_body]
fn draw_random(seed: u64) -> (r: u64)
    ensures
        r == first_random(seed),
{
    random::Source::read_u64(&mut random::default(seed))
}

/// What a connection is set up with.
#[derive(Debug)]
pub struct Config {
    /// How many frames the send queue holds.
    pub sender_queue_size: usize,
    /// The settings that this side announces first.
    pub my_h2_settings: Vec<(SettingKey, u32)>,
}

/// How far the connection has come.
#[derive(Debug, Clone, Copy, PartialEq, Eq, Structural)]
pub enum Phase {
    /// Nothing has come in yet: the preface is due.
    AwaitPreface,
    /// The preface has come in: the settings of the other side are due.
    AwaitSettings,
    /// The settings of the other side have come in.
    Established,
    /// An error of the connection has ended the receiving side.
    Halted,
}

/// What the connection does about what comes in depends on this.
pub struct ConnectionView {
    pub phase: Phase,
    /// Whether the connection is closing: nothing is received or sent any
    /// more.
    pub closing: bool,
    /// Whether a GOAWAY frame has been handed out to be sent.
    pub goaway_sent: bool,
    pub last_received_stream_id: u32,
}

/// A frame that the connection asks to be sent.
pub enum Reply {
    /// A SETTINGS frame that acknowledges.
    SettingsAck,
    /// A GOAWAY frame with this code and this last stream.
    GoAway(Code, u32),
}

/// The connection after an error of the connection with the code `code`,
/// and the frames to send: a GOAWAY frame with the code and the last stream
/// received, unless one has been handed out before. The receiving side
/// ends.
pub open spec fn halted(state: ConnectionView, code: Code) -> (ConnectionView, Seq<Reply>) {
    (
        ConnectionView { phase: Phase::Halted, goaway_sent: true, ..state },
        if state.goaway_sent {
            Seq::empty()
        } else {
            seq![Reply::GoAway(code, state.last_received_stream_id)]
        },
    )
}

/// What the connection does about a frame, or about what was wrong with
/// one: the connection afterwards, the frames to send in their order, and
/// whether the frame goes to the user.
///
/// - While the connection is closing or waits for the preface, and after an
///   error of the connection, nothing is done.
/// - An error of the connection ends the receiving side (see `halted`). An
///   error of a stream is left to the user.
/// - The first frame must be a SETTINGS frame that does not acknowledge;
///   anything else is a protocol error of the connection.
/// - A SETTINGS frame that does not acknowledge is acknowledged.
/// - A GOAWAY frame is answered with one GOAWAY frame without an error,
///   unless one has been handed out before.
/// - A HEADERS frame sets the last stream received.
pub open spec fn react(state: ConnectionView, outcome: Result<FrameView, Fault>) -> (
    ConnectionView,
    Seq<Reply>,
    bool,
) {
    if state.closing || state.phase == Phase::AwaitPreface || state.phase == Phase::Halted {
        (state, Seq::empty(), false)
    } else {
        match outcome {
            Err(fault) => if fault.0 == Level::ConnectionLevel {
                (halted(state, fault.1).0, halted(state, fault.1).1, false)
            } else {
                (state, Seq::empty(), false)
            },
            Ok(frame) => match frame {
                FrameView::Settings(f) => if f.0 {
                    if state.phase == Phase::AwaitSettings {
                        (
                            halted(state, Code::ProtocolError).0,
                            halted(state, Code::ProtocolError).1,
                            false,
                        )
                    } else {
                        (state, Seq::empty(), true)
                    }
                } else {
                    (
                        ConnectionView { phase: Phase::Established, ..state },
                        seq![Reply::SettingsAck],
                        true,
                    )
                },
                _ => if state.phase == Phase::AwaitSettings {
                    (
                        halted(state, Code::ProtocolError).0,
                        halted(state, Code::ProtocolError).1,
                        false,
                    )
                } else {
                    match frame {
                        FrameView::GoAway(_) => (
                            ConnectionView { goaway_sent: true, ..state },
                            if state.goaway_sent {
                                Seq::empty()
                            } else {
                                seq![Reply::GoAway(Code::NoError, state.last_received_stream_id)]
                            },
                            true,
                        ),
                        FrameView::Headers(h) => (
                            ConnectionView { last_received_stream_id: h.stream_id, ..state },
                            Seq::empty(),
                            true,
                        ),
                        _ => (state, Seq::empty(), true),
                    }
                },
            },
        }
    }
}

/// Whether a frame with the header `header` may be the first frame: whether
/// it is a SETTINGS frame that does not acknowledge.
pub open spec fn may_be_first(header: FrameHeader) -> bool {
    header.frame_type == 4 && header.flags & 0x1 == 0
}

/// What a frame that comes in is to the connection: the frame, or what is
/// wrong with it, and the dynamic table of the decoder after it. A frame
/// that comes first and may not be the first is a protocol error of the
/// connection, whatever it holds.
pub open spec fn incoming(
    state: ConnectionView,
    table: TableView,
    max: int,
    header: FrameHeader,
    body: Seq<u8>,
) -> (Result<FrameView, Fault>, TableView) {
    if state.phase == Phase::AwaitSettings && !may_be_first(header) {
        (Err((Level::ConnectionLevel, Code::ProtocolError)), table)
    } else {
        Frame::spec_parse(table, max, header, body)
    }
}

/// The frame that a frame to be sent is, as far as `react` tells frames
/// apart.
pub open spec fn reply_of(frame: SendFrame) -> Option<Reply> {
    match frame {
        SendFrame::Settings(f) => if f.ack && f.values@.len() == 0 {
            Some(Reply::SettingsAck)
        } else {
            None
        },
        SendFrame::GoAway(f) => if f.debug_info@.len() == 0 {
            Some(Reply::GoAway(f.error_code, f.last_stream_id))
        } else {
            None
        },
        _ => None,
    }
}

/// What the connection asks for when something has come in.
#[derive(Debug)]
pub struct Reaction {
    /// The frames to send, in this order.
    pub replies: Vec<SendFrame>,
    /// The frame to hand to the user.
    pub deliver: Option<Frame>,
    /// The error to report: one of the connection, which has ended the
    /// receiving side, or one of a stream.
    pub error: Option<Error>,
}

impl Reaction {
    /// The frames to send, as `react` names them.
    pub open spec fn reply_views(&self) -> Seq<Option<Reply>> {
        self.replies@.map_values(|f: SendFrame| reply_of(f))
    }
}

/// The state of a connection.
pub struct Connection {
    id: u64,
    my_h2_settings: Settings,
    remote_h2_settings: Settings,
    to_close: bool,
    goaway_sent: bool,
    last_received_stream_id: u32,
    phase: Phase,
    header_decoder: Decoder,
    header_encoder: Encoder,
}

impl View for Connection {
    type V = ConnectionView;

    closed spec fn view(&self) -> ConnectionView {
        ConnectionView {
            phase: self.phase,
            closing: self.to_close,
            goaway_sent: self.goaway_sent,
            last_received_stream_id: self.last_received_stream_id,
        }
    }
}

/// The number of milliseconds to wait, for a number drawn at random: the
/// number modulo 30.
pub fn backoff_from(raw: u64) -> (millis: u64)
    ensures
        millis == raw % 30,
        millis < BACKOFF_LIMIT_MILLIS,
{
    raw % BACKOFF_LIMIT_MILLIS
}

/// The number of milliseconds that a frame waits before it is offered to a
/// full send queue again: below 30, drawn with the seed `seed`.
pub fn backoff_millis(seed: u64) -> (millis: u64)
    ensures
        millis == first_random(seed) % 30,
        millis < BACKOFF_LIMIT_MILLIS,
{
    backoff_from(draw_random(seed))
}

/// Whether `buf` is the preface of a client.
pub fn is_preface(buf: &[u8]) -> (r: bool)
    ensures
        r == (buf@ == PREFACE.spec_bytes()),
{
    bytes_eq(buf, PREFACE.as_bytes())
}

impl Connection {
    pub closed spec fn wf(&self) -> bool {
        self.header_decoder.wf() && self.header_encoder.wf()
    }

    /// The identifier of the connection.
    pub closed spec fn id(&self) -> u64 {
        self.id
    }

    /// The settings that this side has announced.
    pub closed spec fn my_settings(&self) -> &Settings {
        &self.my_h2_settings
    }

    /// The settings that the other side has announced.
    pub closed spec fn remote_settings(&self) -> &Settings {
        &self.remote_h2_settings
    }

    /// The dynamic table of the decoder.
    pub closed spec fn decoder_table(&self) -> TableView {
        self.header_decoder.table()
    }

    /// The most that the decoder lets the other side set the limit of the
    /// table to.
    pub closed spec fn decoder_max(&self) -> int {
        self.header_decoder.max_capacity()
    }

    /// The connection has the HPACK state and the settings of `before`.
    pub closed spec fn keeps_tables_and_settings(&self, before: &Connection) -> bool {
        &&& self.header_decoder == before.header_decoder
        &&& self.header_encoder == before.header_encoder
        &&& self.my_h2_settings == before.my_h2_settings
        &&& self.remote_h2_settings == before.remote_h2_settings
    }

    /// A connection that keeps its HPACK state and its settings shows it in
    /// all that can be asked of them.
    pub proof fn lemma_keeps(&self, before: &Connection)
        requires
            self.keeps_tables_and_settings(before),
        ensures
            self.decoder_table() == before.decoder_table(),
            self.decoder_max() == before.decoder_max(),
            self.encoder_table() == before.encoder_table(),
            self.encoder_pending() == before.encoder_pending(),
            self.my_settings() == before.my_settings(),
            self.remote_settings() == before.remote_settings(),
    {
    }

    /// The dynamic table of the encoder.
    pub closed spec fn encoder_table(&self) -> TableView {
        self.header_encoder.table()
    }

    /// The limit that the encoder is to set at the start of the next header
    /// block, where it is to set one.
    pub closed spec fn encoder_pending(&self) -> Option<int> {
        self.header_encoder.pending()
    }

    /// A connection on which nothing has happened, with the identifier `id`
    /// and all settings at their defaults.
    pub fn with_id(id: u64) -> (c: Connection)
        ensures
            c.wf(),
            c.id() == id,
            c@ == (ConnectionView {
                phase: Phase::AwaitPreface,
                closing: false,
                goaway_sent: false,
                last_received_stream_id: 0,
            }),
            c.decoder_table() == (TableView { entries: Seq::empty(), limit: 4096 }),
            c.decoder_max() == 4096,
            c.encoder_table() == (TableView { entries: Seq::empty(), limit: 4096 }),
            c.encoder_pending().is_none(),
            forall|key: SettingKey| c.my_settings().spec_get(key) == key.default_value(),
            forall|key: SettingKey| c.remote_settings().spec_get(key) == key.default_value(),
    {
        let my_h2_settings = Settings::new();
        let table_size = my_h2_settings.get(SettingKey::HeaderTableSize) as usize;
        assert(SettingKey::HeaderTableSize.default_value() == 4096);
        Connection {
            id,
            my_h2_settings,
            remote_h2_settings: Settings::new(),
            to_close: false,
            goaway_sent: false,
            last_received_stream_id: 0,
            phase: Phase::AwaitPreface,
            header_decoder: Decoder::with_capacity(table_size),
            header_encoder: Encoder::with_capacity(table_size),
        }
    }

    /// A connection on which nothing has happened, with an identifier drawn
    /// with the seed `seed`.
    pub fn new(seed: u64) -> (c: Connection)
        ensures
            c.wf(),
            c.id() == first_random(seed),
            c@ == (ConnectionView {
                phase: Phase::AwaitPreface,
                closing: false,
                goaway_sent: false,
                last_received_stream_id: 0,
            }),
            c.decoder_table() == (TableView { entries: Seq::empty(), limit: 4096 }),
            c.decoder_max() == 4096,
            c.encoder_table() == (TableView { entries: Seq::empty(), limit: 4096 }),
            c.encoder_pending().is_none(),
            forall|key: SettingKey| c.my_settings().spec_get(key) == key.default_value(),
            forall|key: SettingKey| c.remote_settings().spec_get(key) == key.default_value(),
    {
        Connection::with_id(draw_random(seed))
    }

    /// The identifier in base 62.
    pub fn encoded_id(&self) -> (s: String)
        ensures
            s@ == base62_text(self.id() as nat),
    {
        base62_encode(self.id)
    }

    /// The identifier.
    pub fn get_id(&self) -> (id: u64)
        ensures
            id == self.id(),
    {
        self.id
    }

    pub fn get_last_received_stream_id(&self) -> (id: u32)
        ensures
            id == self@.last_received_stream_id,
    {
        self.last_received_stream_id
    }

    /// How far the connection has come.
    pub fn phase(&self) -> (r: Phase)
        ensures
            r == self@.phase,
    {
        self.phase
    }

    pub fn is_closing(&self) -> (r: bool)
        ensures
            r == self@.closing,
    {
        self.to_close
    }

    /// Closes the connection: from now on nothing is received or sent.
    pub fn async_disconnect(&mut self)
        requires
            old(self).wf(),
        ensures
            final(self).wf(),
            final(self).id() == old(self).id(),
            final(self).keeps_tables_and_settings(old(self)),
            final(self)@ == (ConnectionView { closing: true, ..old(self)@ }),
    {
        self.to_close = true;
    }

    /// The value of the setting `key` that this side has announced.
    pub fn my_setting(&self, key: SettingKey) -> (r: u32)
        ensures
            r == self.my_settings().spec_get(key),
    {
        self.my_h2_settings.get(key)
    }

    /// The value of the setting `key` that the other side has announced.
    pub fn remote_setting(&self, key: SettingKey) -> (r: u32)
        ensures
            r == self.remote_settings().spec_get(key),
    {
        self.remote_h2_settings.get(key)
    }

    /// Takes over new settings of this side and returns the SETTINGS frame
    /// that announces them. A header table size among them is from now on
    /// the most that the other side may set the limit of the decoder's
    /// dynamic table to.
    pub fn update_sender_h2_settings(&mut self, new_values: Vec<(SettingKey, u32)>) -> (f: SendFrame)
        requires
            old(self).wf(),
        ensures
            final(self).wf(),
            final(self)@ == old(self)@,
            final(self).id() == old(self).id(),
            final(self).decoder_table() == old(self).decoder_table(),
            final(self).encoder_table() == old(self).encoder_table(),
            final(self).encoder_pending() == old(self).encoder_pending(),
            final(self).remote_settings() == old(self).remote_settings(),
            forall|key: SettingKey|
                final(self).my_settings().spec_get(key) == applied(
                    old(self).my_settings(),
                    new_values@,
                    key,
                ),
            final(self).decoder_max() == final(self).my_settings().spec_get(
                SettingKey::HeaderTableSize,
            ),
            match f {
                SendFrame::Settings(s) => !s.ack && s.values == new_values,
                _ => false,
            },
    {
        self.my_h2_settings.apply(&new_values);
        let table_size = self.my_h2_settings.get(SettingKey::HeaderTableSize) as usize;
        self.header_decoder.set_max_capacity(table_size);
        SendFrame::Settings(SettingsFrame::new(false, new_values))
    }

    /// Takes over new settings of the other side and returns the SETTINGS
    /// frame that acknowledges them. The encoder is asked to bring the limit
    /// of its dynamic table to the header table size of the other side,
    /// where that is not the limit already.
    pub fn update_remote_h2_settings(&mut self, new_values: &Vec<(SettingKey, u32)>) -> (f: SendFrame)
        requires
            old(self).wf(),
        ensures
            final(self).wf(),
            final(self)@ == old(self)@,
            final(self).id() == old(self).id(),
            final(self).decoder_table() == old(self).decoder_table(),
            final(self).decoder_max() == old(self).decoder_max(),
            final(self).my_settings() == old(self).my_settings(),
            final(self).encoder_table() == old(self).encoder_table(),
            final(self).encoder_pending() == pending_after(
                old(self).encoder_pending(),
                old(self).encoder_table(),
                final(self).remote_settings().spec_get(SettingKey::HeaderTableSize) as int,
            ),
            forall|key: SettingKey|
                final(self).remote_settings().spec_get(key) == applied(
                    old(self).remote_settings(),
                    new_values@,
                    key,
                ),
            reply_of(f) == Some(Reply::SettingsAck),
    {
        self.remote_h2_settings.apply(new_values);
        let table_size = self.remote_h2_settings.get(SettingKey::HeaderTableSize) as usize;
        self.header_encoder.update_capacity(table_size);
        SendFrame::Settings(SettingsFrame::new(true, Vec::new()))
    }

    /// Takes the first 24 octets that have come in. Where they are the
    /// preface of a client, the settings of the other side are due next.
    /// Where they are not, a protocol error has ended the receiving side,
    /// and the frame to send is a GOAWAY frame. On a connection that is
    /// closing or does not wait for the preface, nothing is done.
    pub fn receive_preface(&mut self, buf: &[u8]) -> (r: Reaction)
        requires
            old(self).wf(),
        ensures
            final(self).wf(),
            final(self).id() == old(self).id(),
            final(self).keeps_tables_and_settings(old(self)),
            r.deliver.is_none(),
            if old(self)@.closing || old(self)@.phase != Phase::AwaitPreface {
                final(self)@ == old(self)@ && r.replies@.len() == 0 && r.error.is_none()
            } else if buf@ == PREFACE.spec_bytes() {
                final(self)@ == (ConnectionView { phase: Phase::AwaitSettings, ..old(self)@ })
                    && r.replies@.len() == 0 && r.error.is_none()
            } else {
                final(self)@ == halted(old(self)@, Code::ProtocolError).0 && r.reply_views()
                    == halted(old(self)@, Code::ProtocolError).1.map_values(|x: Reply| Some(x))
                    && match r.error {
                    Some(e) => e.level == Level::ConnectionLevel && e.code == Code::ProtocolError,
                    None => false,
                }
            },
    {
        let mut replies: Vec<SendFrame> = Vec::new();
        if self.to_close || self.phase != Phase::AwaitPreface {
            return Reaction { replies, deliver: None, error: None };
        }
        if is_preface(buf) {
            self.phase = Phase::AwaitSettings;
            return Reaction { replies, deliver: None, error: None };
        }
        self.halt(Code::ProtocolError, &mut replies);
        Reaction {
            replies,
            deliver: None,
            error: Some(
                Error::with_details(
                    Level::ConnectionLevel,
                    Code::ProtocolError,
                    "HTTP/2 preface mismatch",
                ),
            ),
        }
    }

    /// Ends the receiving side after an error of the connection, and asks
    /// for a GOAWAY frame unless one has been handed out before.
    fn halt(&mut self, code: Code, replies: &mut Vec<SendFrame>)
        requires
            old(self).wf(),
            old(replies)@.len() == 0,
        ensures
            final(self).wf(),
            final(self).id() == old(self).id(),
            final(self).keeps_tables_and_settings(old(self)),
            final(self)@ == halted(old(self)@, code).0,
            final(replies)@.map_values(|f: SendFrame| reply_of(f)) == halted(
                old(self)@,
                code,
            ).1.map_values(|x: Reply| Some(x)),
    {
        if !self.goaway_sent {
            let mut f = GoAwayFrame::new();
            f.last_stream_id = self.last_received_stream_id;
            f.error_code = code;
            replies.push(SendFrame::GoAway(f));
            assert(replies@.map_values(|f: SendFrame| reply_of(f)) =~= seq![
                Some(Reply::GoAway(code, self.last_received_stream_id)),
            ]);
            assert(halted(old(self)@, code).1.map_values(|x: Reply| Some(x)) =~= seq![
                Some(Reply::GoAway(code, self.last_received_stream_id)),
            ]);
        } else {
            assert(replies@.map_values(|f: SendFrame| reply_of(f)) =~= Seq::empty());
            assert(halted(old(self)@, code).1.map_values(|x: Reply| Some(x)) =~= Seq::empty());
        }
        self.goaway_sent = true;
        self.phase = Phase::Halted;
    }

    /// Takes a frame that has come in, as its header and its body, and says
    /// what to do about it: `react` names the frames to send and tells
    /// whether the frame goes to the user. The settings of a SETTINGS frame
    /// that does not acknowledge are taken over.
    pub fn receive_frame(&mut self, header: &FrameHeader, body: Vec<u8>) -> (r: Reaction)
        requires
            old(self).wf(),
        ensures
            final(self).wf(),
            final(self).id() == old(self).id(),
            final(self).decoder_max() == old(self).decoder_max(),
            final(self).my_settings() == old(self).my_settings(),
            final(self).encoder_table() == old(self).encoder_table(),
            ({
                let parsed = incoming(
                    old(self)@,
                    old(self).decoder_table(),
                    old(self).decoder_max(),
                    *header,
                    body@,
                );
                let outcome = parsed.0;
                let idle = old(self)@.closing || old(self)@.phase == Phase::AwaitPreface || old(self)@.phase == Phase::Halted;
                let expected = react(old(self)@, outcome);
                // What `react` says is done.
                &&& final(self)@ == expected.0
                &&& r.reply_views() == expected.1.map_values(|x: Reply| Some(x))
                &&& match r.deliver {
                    Some(f) => expected.2 && outcome == Ok::<FrameView, Fault>(f@),
                    None => !expected.2,
                }
                // What is wrong with the frame is reported.
                &&& match r.error {
                    Some(e) => !idle && match outcome {
                        Ok(_) => false,
                        Err(fault) => e.level == fault.0 && e.code == fault.1,
                    },
                    None => idle || outcome.is_ok(),
                }
                // The header block of a HEADERS frame has gone through the decoder.
                &&& final(self).decoder_table() == if idle {
                    old(self).decoder_table()
                } else {
                    parsed.1
                }
                // The settings of a SETTINGS frame that does not acknowledge
                // have been taken over, and the encoder has been asked to
                // bring its table to the header table size among them.
                &&& match outcome {
                    Ok(FrameView::Settings(f)) if !idle && !f.0 => {
                        &&& forall|key: SettingKey|
                            final(self).remote_settings().spec_get(key) == applied(
                                old(self).remote_settings(),
                                f.1,
                                key,
                            )
                        &&& final(self).encoder_pending() == pending_after(
                            old(self).encoder_pending(),
                            old(self).encoder_table(),
                            final(self).remote_settings().spec_get(SettingKey::HeaderTableSize)
                                as int,
                        )
                    },
                    _ => {
                        &&& final(self).remote_settings() == old(self).remote_settings()
                        &&& final(self).encoder_pending() == old(self).encoder_pending()
                    },
                }
            }),
    {
        let mut replies: Vec<SendFrame> = Vec::new();
        proof {
            assert(replies@.map_values(|f: SendFrame| reply_of(f)) =~= Seq::empty());
            assert(Seq::<Reply>::empty().map_values(|x: Reply| Some(x)) =~= Seq::empty());
        }
        if self.to_close || self.phase == Phase::AwaitPreface || self.phase == Phase::Halted {
            return Reaction { replies, deliver: None, error: None };
        }
        if self.phase == Phase::AwaitSettings && !(header.frame_type == TYPE_SETTINGS
            && header.flags & FLAG_ACK == 0) {
            self.halt(Code::ProtocolError, &mut replies);
            return Reaction {
                replies,
                deliver: None,
                error: Some(
                    Error::with_details(
                        Level::ConnectionLevel,
                        Code::ProtocolError,
                        "the first frame must be a SETTINGS frame that does not acknowledge",
                    ),
                ),
            };
        }
        let frame = match Frame::parse(&mut self.header_decoder, header, body) {
            Ok(frame) => frame,
            Err(err) => {
                if err.level == Level::ConnectionLevel {
                    self.halt(err.code, &mut replies);
                }
                return Reaction { replies, deliver: None, error: Some(err) };
            },
        };
        match &frame {
            Frame::Settings(f) => {
                if !f.ack {
                    let ack = self.update_remote_h2_settings(&f.values);
                    self.phase = Phase::Established;
                    replies.push(ack);
                    assert(replies@.map_values(|f: SendFrame| reply_of(f)) =~= seq![
                        Some(Reply::SettingsAck),
                    ]);
                    assert(seq![Reply::SettingsAck].map_values(|x: Reply| Some(x)) =~= seq![
                        Some(Reply::SettingsAck),
                    ]);
                }
            },
            Frame::GoAway(_) => {
                if !self.goaway_sent {
                    let mut f = GoAwayFrame::new();
                    f.last_stream_id = self.last_received_stream_id;
                    replies.push(SendFrame::GoAway(f));
                    assert(replies@.map_values(|f: SendFrame| reply_of(f)) =~= seq![
                        Some(Reply::GoAway(Code::NoError, self.last_received_stream_id)),
                    ]);
                    assert(seq![
                        Reply::GoAway(Code::NoError, self.last_received_stream_id),
                    ].map_values(|x: Reply| Some(x)) =~= seq![
                        Some(Reply::GoAway(Code::NoError, self.last_received_stream_id)),
                    ]);
                }
                self.goaway_sent = true;
            },
            Frame::Headers(f) => {
                self.last_received_stream_id = f.stream_id;
            },
            Frame::Priority(_) => {},
        }
        Reaction { replies, deliver: Some(frame), error: None }
    }

    /// Takes notice that the transport has failed. The error is a connect
    /// error of the connection: the receiving side ends, and the frame to
    /// send, should the transport still take it, is a GOAWAY frame.
    pub fn transport_failed(&mut self, cause: String) -> (r: Reaction)
        requires
            old(self).wf(),
        ensures
            final(self).wf(),
            final(self).id() == old(self).id(),
            final(self).keeps_tables_and_settings(old(self)),
            final(self)@ == halted(old(self)@, Code::ConnectError).0,
            r.reply_views() == halted(old(self)@, Code::ConnectError).1.map_values(
                |x: Reply| Some(x),
            ),
            r.deliver.is_none(),
            match r.error {
                Some(e) => e.level == Level::ConnectionLevel && e.code == Code::ConnectError
                    && e.cause == Some(cause),
                None => false,
            },
    {
        let mut replies: Vec<SendFrame> = Vec::new();
        self.halt(Code::ConnectError, &mut replies);
        Reaction {
            replies,
            deliver: None,
            error: Some(
                Error::new_with_cause(
                    Level::ConnectionLevel,
                    Code::ConnectError,
                    String::from_str("the transport has failed"),
                    cause,
                ),
            ),
        }
    }

    /// Turns a frame to be sent into octets. A closing connection sends
    /// nothing. A GOAWAY frame is the last frame that is sent: with it the
    /// connection is closing. A frame that cannot be written is an error and
    /// is not sent.
    pub fn frame_to_wire(&mut self, frame: &SendFrame) -> (r: Option<Result<Vec<u8>, Error>>)
        requires
            old(self).wf(),
        ensures
            final(self).wf(),
            final(self).id() == old(self).id(),
            final(self).decoder_table() == old(self).decoder_table(),
            final(self).decoder_max() == old(self).decoder_max(),
            final(self).my_settings() == old(self).my_settings(),
            final(self).remote_settings() == old(self).remote_settings(),
            r.is_none() == old(self)@.closing,
            final(self)@ == (ConnectionView {
                closing: old(self)@.closing || match frame {
                    SendFrame::GoAway(_) => true,
                    _ => false,
                },
                ..old(self)@
            }),
            match r {
                None => final(self).encoder_table() == old(self).encoder_table() && final(self).encoder_pending() == old(self).encoder_pending(),
                Some(written) => match frame {
                    SendFrame::Headers(f) => {
                        let block = block_encoding(
                            old(self).encoder_table(),
                            old(self).encoder_pending(),
                            field_specs(f.headers@),
                        );
                        &&& final(self).encoder_table() == block.1
                        &&& final(self).encoder_pending().is_none()
                        &&& match f.spec_serialize(block.0) {
                            Some(bytes) => match written {
                                Ok(buf) => buf@ == bytes,
                                Err(_) => false,
                            },
                            None => match written {
                                Ok(_) => false,
                                Err(e) => e.level == Level::StreamLevel && e.code
                                    == Code::FrameSizeError,
                            },
                        }
                    },
                    SendFrame::Priority(f) => {
                        &&& final(self).encoder_table() == old(self).encoder_table()
                        &&& final(self).encoder_pending() == old(self).encoder_pending()
                        &&& match written {
                            Ok(buf) => buf@ == f.spec_serialize(),
                            Err(_) => false,
                        }
                    },
                    SendFrame::Settings(f) => {
                        &&& final(self).encoder_table() == old(self).encoder_table()
                        &&& final(self).encoder_pending() == old(self).encoder_pending()
                        &&& match written {
                            Ok(buf) => buf@ == f.spec_serialize() && f.values@.len() * 6
                                <= 0xFF_FFFF,
                            Err(e) => f.values@.len() * 6 > 0xFF_FFFF && e.level
                                == Level::StreamLevel && e.code == Code::FrameSizeError,
                        }
                    },
                    SendFrame::GoAway(f) => {
                        &&& final(self).encoder_table() == old(self).encoder_table()
                        &&& final(self).encoder_pending() == old(self).encoder_pending()
                        &&& match written {
                            Ok(buf) => buf@ == f.spec_serialize() && f.debug_info@.len() + 8
                                <= 0xFF_FFFF,
                            Err(e) => f.debug_info@.len() + 8 > 0xFF_FFFF && e.level
                                == Level::StreamLevel && e.code == Code::FrameSizeError,
                        }
                    },
                },
            },
    {
        if self.to_close {
            return None;
        }
        match frame {
            SendFrame::GoAway(_) => {
                self.to_close = true;
            },
            _ => {},
        }
        Some(frame.serialize(&mut self.header_encoder))
    }
}

/// Sets a connection up: a new connection with an identifier drawn with
/// the seed `seed`, and the SETTINGS frame that announces the settings
/// of `cfg`, which is the first frame to send.
pub fn handshake(cfg: Config, seed: u64) -> (r: (Connection, SendFrame))
    ensures
        r.0.wf(),
        r.0.id() == first_random(seed),
        r.0@ == (ConnectionView {
            phase: Phase::AwaitPreface,
            closing: false,
            goaway_sent: false,
            last_received_stream_id: 0,
        }),
        match r.1 {
            SendFrame::Settings(s) => !s.ack && s.values == cfg.my_h2_settings,
            _ => false,
        },
        forall|key: SettingKey|
            r.0.my_settings().spec_get(key) == applied_to_defaults(cfg.my_h2_settings@, key),
        forall|key: SettingKey| r.0.remote_settings().spec_get(key) == key.default_value(),
        r.0.decoder_max() == applied_to_defaults(
            cfg.my_h2_settings@,
            SettingKey::HeaderTableSize,
        ),
        r.0.decoder_table() == (TableView { entries: Seq::empty(), limit: 4096 }),
        r.0.encoder_table() == (TableView { entries: Seq::empty(), limit: 4096 }),
        r.0.encoder_pending().is_none(),
{
    let mut conn = Connection::new(seed);
    proof {
        assert forall|key: SettingKey|
            applied(conn.my_settings(), cfg.my_h2_settings@, key) == applied_to_defaults(
                cfg.my_h2_settings@,
                key,
            ) by {
            lemma_applied_to_defaults(conn.my_settings(), cfg.my_h2_settings@, key);
        }
    }
    let first = conn.update_sender_h2_settings(cfg.my_h2_settings);
    (conn, first)
}

/// The first frame must be a SETTINGS frame that does not acknowledge:
/// whatever else comes first, header and body, the connection asks for one
/// GOAWAY frame with a protocol error and for nothing else, and the
/// receiving side ends.
pub proof fn lemma_settings_first(
    state: ConnectionView,
    table: TableView,
    max: int,
    header: FrameHeader,
    body: Seq<u8>,
)
    requires
        state.phase == Phase::AwaitSettings,
        !state.closing,
        !state.goaway_sent,
    ensures
        ({
            let outcome = incoming(state, table, max, header, body).0;
            let settings = match outcome {
                Ok(FrameView::Settings(f)) => !f.0,
                _ => false,
            };
            if settings {
                &&& may_be_first(header)
                &&& react(state, outcome).0.phase == Phase::Established
                &&& react(state, outcome).1 == seq![Reply::SettingsAck]
                &&& react(state, outcome).2
            } else {
                &&& react(state, outcome).0.phase == Phase::Halted
                &&& react(state, outcome).1 == seq![
                    Reply::GoAway(Code::ProtocolError, state.last_received_stream_id),
                ]
                &&& !react(state, outcome).2
            }
        }),
{
}

/// The frames that the connection asks for over a run of frames and errors
/// that come in, and the connection afterwards.
pub open spec fn react_all(state: ConnectionView, outcomes: Seq<Result<FrameView, Fault>>) -> (
    ConnectionView,
    Seq<Reply>,
)
    decreases outcomes.len(),
{
    if outcomes.len() == 0 {
        (state, Seq::empty())
    } else {
        let before = react_all(state, outcomes.drop_last());
        let step = react(before.0, outcomes.last());
        (step.0, before.1 + step.1)
    }
}

/// How many of `replies` are GOAWAY frames.
pub open spec fn goaway_count(replies: Seq<Reply>) -> nat
    decreases replies.len(),
{
    if replies.len() == 0 {
        0
    } else {
        goaway_count(replies.drop_last()) + match replies.last() {
            Reply::GoAway(_, _) => 1nat,
            Reply::SettingsAck => 0nat,
        }
    }
}

pub proof fn lemma_goaway_count_concat(a: Seq<Reply>, b: Seq<Reply>)
    ensures
        goaway_count(a + b) == goaway_count(a) + goaway_count(b),
    decreases b.len(),
{
    if b.len() == 0 {
        assert(a + b =~= a);
    } else {
        assert((a + b).drop_last() =~= a + b.drop_last());
        lemma_goaway_count_concat(a, b.drop_last());
    }
}

/// One step asks for one GOAWAY frame at most, and for none once one has
/// been handed out.
pub proof fn lemma_react_goaway(state: ConnectionView, outcome: Result<FrameView, Fault>)
    ensures
        goaway_count(react(state, outcome).1) <= 1,
        goaway_count(react(state, outcome).1) == 1 ==> react(state, outcome).0.goaway_sent,
        state.goaway_sent ==> react(state, outcome).0.goaway_sent && goaway_count(
            react(state, outcome).1,
        ) == 0,
{
    let replies = react(state, outcome).1;
    assert(replies.len() <= 1);
    if replies.len() == 1 {
        assert(replies.drop_last() =~= Seq::<Reply>::empty());
        assert(goaway_count(replies.drop_last()) == 0);
    }
}

/// Once a GOAWAY frame has been handed out, no frame and no error makes the
/// connection ask for another.
pub proof fn lemma_no_second_goaway(state: ConnectionView, outcomes: Seq<Result<FrameView, Fault>>)
    requires
        state.goaway_sent,
    ensures
        react_all(state, outcomes).0.goaway_sent,
        goaway_count(react_all(state, outcomes).1) == 0,
    decreases outcomes.len(),
{
    if outcomes.len() > 0 {
        lemma_no_second_goaway(state, outcomes.drop_last());
        let before = react_all(state, outcomes.drop_last());
        let step = react(before.0, outcomes.last());
        lemma_react_goaway(before.0, outcomes.last());
        lemma_goaway_count_concat(before.1, step.1);
    }
}

/// Whatever comes in, the connection asks for one GOAWAY frame at most.
pub proof fn lemma_goaway_at_most_once(state: ConnectionView, outcomes: Seq<Result<FrameView, Fault>>)
    ensures
        goaway_count(react_all(state, outcomes).1) <= 1,
        goaway_count(react_all(state, outcomes).1) == 1 ==> react_all(state, outcomes).0.goaway_sent,
    decreases outcomes.len(),
{
    if outcomes.len() > 0 {
        lemma_goaway_at_most_once(state, outcomes.drop_last());
        let before = react_all(state, outcomes.drop_last());
        let step = react(before.0, outcomes.last());
        lemma_react_goaway(before.0, outcomes.last());
        lemma_goaway_count_concat(before.1, step.1);
    }
}

/// A GOAWAY frame that comes in on an open connection is answered with one
/// GOAWAY frame without an error, and whatever comes in after it, no other
/// GOAWAY frame is asked for.
pub proof fn lemma_goaway_answered_once(
    state: ConnectionView,
    goaway: (u32, Code, Seq<u8>),
    later: Seq<Result<FrameView, Fault>>,
)
    requires
        state.phase == Phase::Established,
        !state.closing,
        !state.goaway_sent,
    ensures
        react(state, Ok(FrameView::GoAway(goaway))).1 == seq![
            Reply::GoAway(Code::NoError, state.last_received_stream_id),
        ],
        goaway_count(react_all(react(state, Ok(FrameView::GoAway(goaway))).0, later).1) == 0,
{
    lemma_no_second_goaway(react(state, Ok(FrameView::GoAway(goaway))).0, later);
}

} // verus!
