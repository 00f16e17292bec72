//! The command-line client: its arguments, its audio files, and what it does
//! with signals.
use vstd::prelude::*;
use vstd::string::StringExecFns;

use crate::net::{parse_socket, Ipv4Addr, Ipv6Addr, SocketAddr};
use crate::proto::{
    good_profile, opt_text, CallAcceptMode, HangupReason, MediaPacket, QualityProfile,
    SignalMessage,
};
use crate::text::{
    chars_of, hex_padded, parse_decimal, parse_decimal_exec, push_hex_padded, same_text,
};

verus! {

broadcast use vstd::string::group_string_axioms;

/// Samples in a 20 ms frame at 48 kHz mono.
pub const FRAME_SAMPLES: usize = 960;

/// Frames of silence that a connectivity test sends.
pub const SILENCE_FRAMES: u32 = 250;

// ---------------------------------------------------------------------------
// Arguments
// ---------------------------------------------------------------------------

/// What the arguments ask for.
#[derive(Clone, Debug)]
pub struct CliArgs {
    pub relay_addr: SocketAddr,
    pub live: bool,
    pub send_tone_secs: Option<u32>,
    pub send_file: Option<String>,
    pub record_file: Option<String>,
    pub echo_test_secs: Option<u32>,
    pub drift_test_secs: Option<u32>,
    pub sweep: bool,
    pub seed_hex: Option<String>,
    pub mnemonic: Option<String>,
    pub room: Option<String>,
    pub token: Option<String>,
    pub metrics_file: Option<String>,
    pub version_check: bool,
    /// Stay connected for signals.
    pub signal: bool,
    /// Whom to call.
    pub call_target: Option<String>,
}

/// Why no request could be read from the arguments.
#[derive(Debug)]
pub enum ArgError {
    /// Help is asked for.
    Help,
    Unknown { argument: String },
    /// An option lacks its value, or the value is no number.
    Bad { message: &'static str },
    InvalidRelay,
}

#[verifier::ext_equal]
pub enum ArgErrorView {
    Help,
    Unknown(Seq<char>),
    Bad(Seq<char>),
    InvalidRelay,
}

impl View for ArgError {
    type V = ArgErrorView;

    open spec fn view(&self) -> ArgErrorView {
        match *self {
            ArgError::Help => ArgErrorView::Help,
            ArgError::Unknown { argument } => ArgErrorView::Unknown(argument@),
            ArgError::Bad { message } => ArgErrorView::Bad(message@),
            ArgError::InvalidRelay => ArgErrorView::InvalidRelay,
        }
    }
}

/// What some of the arguments have said.
struct Draft {
    live: bool,
    send_tone_secs: Option<u32>,
    send_file: Option<String>,
    record_file: Option<String>,
    echo_test_secs: Option<u32>,
    drift_test_secs: Option<u32>,
    sweep: bool,
    seed_hex: Option<String>,
    mnemonic: Option<String>,
    room: Option<String>,
    token: Option<String>,
    metrics_file: Option<String>,
    version_check: bool,
    signal: bool,
    call_target: Option<String>,
    relay: Option<String>,
}

#[verifier::ext_equal]
pub struct DraftView {
    pub live: bool,
    pub send_tone_secs: Option<u32>,
    pub send_file: Option<Seq<char>>,
    pub record_file: Option<Seq<char>>,
    pub echo_test_secs: Option<u32>,
    pub drift_test_secs: Option<u32>,
    pub sweep: bool,
    pub seed_hex: Option<Seq<char>>,
    pub mnemonic: Option<Seq<char>>,
    pub room: Option<Seq<char>>,
    pub token: Option<Seq<char>>,
    pub metrics_file: Option<Seq<char>>,
    pub version_check: bool,
    pub signal: bool,
    pub call_target: Option<Seq<char>>,
    pub relay: Option<Seq<char>>,
}

impl View for Draft {
    type V = DraftView;

    closed spec fn view(&self) -> DraftView {
        DraftView {
            live: self.live,
            send_tone_secs: self.send_tone_secs,
            send_file: opt_text(self.send_file),
            record_file: opt_text(self.record_file),
            echo_test_secs: self.echo_test_secs,
            drift_test_secs: self.drift_test_secs,
            sweep: self.sweep,
            seed_hex: opt_text(self.seed_hex),
            mnemonic: opt_text(self.mnemonic),
            room: opt_text(self.room),
            token: opt_text(self.token),
            metrics_file: opt_text(self.metrics_file),
            version_check: self.version_check,
            signal: self.signal,
            call_target: opt_text(self.call_target),
            relay: opt_text(self.relay),
        }
    }
}

pub open spec fn empty_draft() -> DraftView {
    DraftView {
        live: false,
        send_tone_secs: None,
        send_file: None,
        record_file: None,
        echo_test_secs: None,
        drift_test_secs: None,
        sweep: false,
        seed_hex: None,
        mnemonic: None,
        room: None,
        token: None,
        metrics_file: None,
        version_check: false,
        signal: false,
        call_target: None,
        relay: None,
    }
}

pub open spec fn is_option(s: Seq<char>) -> bool {
    s.len() > 0 && s[0] == '-'
}

/// A number that fits in 32 bits; a plus sign may stand before it.
pub open spec fn parse_u32(s: Seq<char>) -> Option<u32> {
    let digits = if s.len() > 0 && s[0] == '+' {
        s.skip(1)
    } else {
        s
    };
    match parse_decimal(digits) {
        Some(v) => if v <= u32::MAX {
            Some(v as u32)
        } else {
            None
        },
        None => None,
    }
}

/// Where the words end that begin at `i`: at the next option, or at the end.
pub open spec fn words_end(args: Seq<Seq<char>>, i: int) -> int
    decreases args.len() - i,
{
    if i >= args.len() || is_option(args[i]) {
        i
    } else {
        words_end(args, i + 1)
    }
}

pub proof fn lemma_words_end(args: Seq<Seq<char>>, i: int)
    requires
        i <= args.len(),
    ensures
        i <= words_end(args, i) <= args.len(),
    decreases args.len() - i,
{
    if i < args.len() && !is_option(args[i]) {
        lemma_words_end(args, i + 1);
    }
}

/// Words with spaces between them.
pub open spec fn joined(words: Seq<Seq<char>>) -> Seq<char>
    decreases words.len(),
{
    if words.len() == 0 {
        Seq::empty()
    } else if words.len() == 1 {
        words[0]
    } else {
        joined(words.drop_last()) + " "@ + words.last()
    }
}

pub open spec fn value_of(args: Seq<Seq<char>>, i: int, missing: Seq<char>) -> Result<
    Seq<char>,
    ArgErrorView,
> {
    if args.len() - i > 1 {
        Ok(args[i + 1])
    } else {
        Err(ArgErrorView::Bad(missing))
    }
}

pub open spec fn number_of(
    args: Seq<Seq<char>>,
    i: int,
    missing: Seq<char>,
    no_number: Seq<char>,
) -> Result<u32, ArgErrorView> {
    if args.len() - i > 1 {
        match parse_u32(args[i + 1]) {
            Some(n) => Ok(n),
            None => Err(ArgErrorView::Bad(no_number)),
        }
    } else {
        Err(ArgErrorView::Bad(missing))
    }
}

/// What the argument at `i` adds to what those before it said, and where the
/// next one is.
pub open spec fn arg_step(args: Seq<Seq<char>>, i: int, d: DraftView) -> Result<
    (DraftView, int),
    ArgErrorView,
> {
    let a = args[i];
    if a == "--live"@ {
        Ok((DraftView { live: true, ..d }, i + 1))
    } else if a == "--signal"@ {
        Ok((DraftView { signal: true, ..d }, i + 1))
    } else if a == "--call"@ {
        match value_of(args, i, "--call requires a fingerprint"@) {
            Ok(v) => Ok((DraftView { call_target: Some(v), ..d }, i + 2)),
            Err(e) => Err(e),
        }
    } else if a == "--send-tone"@ {
        match number_of(
            args,
            i,
            "--send-tone requires seconds"@,
            "--send-tone value must be a number"@,
        ) {
            Ok(n) => Ok((DraftView { send_tone_secs: Some(n), ..d }, i + 2)),
            Err(e) => Err(e),
        }
    } else if a == "--send-file"@ {
        match value_of(args, i, "--send-file requires a filename"@) {
            Ok(v) => Ok((DraftView { send_file: Some(v), ..d }, i + 2)),
            Err(e) => Err(e),
        }
    } else if a == "--seed"@ {
        match value_of(args, i, "--seed requires hex string"@) {
            Ok(v) => Ok((DraftView { seed_hex: Some(v), ..d }, i + 2)),
            Err(e) => Err(e),
        }
    } else if a == "--mnemonic"@ {
        Ok(
            (
                DraftView {
                    mnemonic: Some(joined(args.subrange(i + 1, words_end(args, i + 1)))),
                    ..d
                },
                words_end(args, i + 1),
            ),
        )
    } else if a == "--room"@ {
        match value_of(args, i, "--room requires a name"@) {
            Ok(v) => Ok((DraftView { room: Some(v), ..d }, i + 2)),
            Err(e) => Err(e),
        }
    } else if a == "--token"@ {
        match value_of(args, i, "--token requires a value"@) {
            Ok(v) => Ok((DraftView { token: Some(v), ..d }, i + 2)),
            Err(e) => Err(e),
        }
    } else if a == "--metrics-file"@ {
        match value_of(args, i, "--metrics-file requires a path"@) {
            Ok(v) => Ok((DraftView { metrics_file: Some(v), ..d }, i + 2)),
            Err(e) => Err(e),
        }
    } else if a == "--record"@ {
        match value_of(args, i, "--record requires a filename"@) {
            Ok(v) => Ok((DraftView { record_file: Some(v), ..d }, i + 2)),
            Err(e) => Err(e),
        }
    } else if a == "--echo-test"@ {
        match number_of(
            args,
            i,
            "--echo-test requires seconds"@,
            "--echo-test value must be a number"@,
        ) {
            Ok(n) => Ok((DraftView { echo_test_secs: Some(n), ..d }, i + 2)),
            Err(e) => Err(e),
        }
    } else if a == "--drift-test"@ {
        match number_of(
            args,
            i,
            "--drift-test requires seconds"@,
            "--drift-test value must be a number"@,
        ) {
            Ok(n) => Ok((DraftView { drift_test_secs: Some(n), ..d }, i + 2)),
            Err(e) => Err(e),
        }
    } else if a == "--sweep"@ {
        Ok((DraftView { sweep: true, ..d }, i + 1))
    } else if a == "--version-check"@ {
        Ok((DraftView { version_check: true, ..d }, i + 1))
    } else if a == "--help"@ || a == "-h"@ {
        Err(ArgErrorView::Help)
    } else if d.relay is None && !is_option(a) {
        Ok((DraftView { relay: Some(a), ..d }, i + 1))
    } else {
        Err(ArgErrorView::Unknown(a))
    }
}

/// What the arguments from `i` on add to what those before them said.
pub open spec fn args_from(args: Seq<Seq<char>>, i: int, d: DraftView) -> Result<
    DraftView,
    ArgErrorView,
>
    decreases args.len() - i,
{
    if i >= args.len() {
        Ok(d)
    } else {
        proof {
            lemma_words_end(args, i + 1);
        }
        match arg_step(args, i, d) {
            Ok((next, j)) => args_from(args, j, next),
            Err(e) => Err(e),
        }
    }
}

/// The relay's address: the one that is named, or one on this machine.
pub open spec fn relay_of(d: DraftView) -> Option<SocketAddr> {
    match d.relay {
        Some(s) => parse_socket(s),
        None => parse_socket("127.0.0.1:4433"@),
    }
}

/// `r` is what the arguments ask for.
pub open spec fn is_parsed(args: Seq<Seq<char>>, r: Result<CliArgs, ArgError>) -> bool {
    match args_from(args, 0, empty_draft()) {
        Err(e) => r matches Err(x) && x@ == e,
        Ok(d) => match relay_of(d) {
            None => r matches Err(ArgError::InvalidRelay),
            Some(addr) => r matches Ok(a) && {
                &&& a.relay_addr == addr
                &&& a.live == d.live
                &&& a.send_tone_secs == d.send_tone_secs
                &&& opt_text(a.send_file) == d.send_file
                &&& opt_text(a.record_file) == d.record_file
                &&& a.echo_test_secs == d.echo_test_secs
                &&& a.drift_test_secs == d.drift_test_secs
                &&& a.sweep == d.sweep
                &&& opt_text(a.seed_hex) == d.seed_hex
                &&& opt_text(a.mnemonic) == d.mnemonic
                &&& opt_text(a.room) == d.room
                &&& opt_text(a.token) == d.token
                &&& opt_text(a.metrics_file) == d.metrics_file
                &&& a.version_check == d.version_check
                &&& a.signal == d.signal
                &&& opt_text(a.call_target) == d.call_target
            },
        },
    }
}

pub open spec fn args_view(args: Seq<String>) -> Seq<Seq<char>> {
    args.map_values(|a: String| a@)
}

fn is_option_exec(s: &str) -> (r: bool)
    ensures
        r == is_option(s@),
{
    s.unicode_len() > 0 && s.get_char(0) == '-'
}

fn parse_u32_exec(s: &str) -> (r: Option<u32>)
    ensures
        r == parse_u32(s@),
{
    let mut cs: Vec<char> = chars_of(s);
    if cs.len() > 0 && cs[0] == '+' {
        cs.remove(0);
        assert(cs@ =~= s@.skip(1));
    }
    match parse_decimal_exec(cs.as_slice(), 0xffff_ffff) {
        Some(v) => Some(v as u32),
        None => None,
    }
}

fn value_at(args: &[String], i: usize, missing: &'static str) -> (r: Result<String, ArgError>)
    requires
        i < args@.len(),
    ensures
        match value_of(args_view(args@), i as int, missing@) {
            Ok(v) => r matches Ok(s) && s@ == v,
            Err(e) => r matches Err(x) && x@ == e,
        },
{
    if args.len() - i > 1 {
        Ok(args[i + 1].clone())
    } else {
        Err(ArgError::Bad { message: missing })
    }
}

fn number_at(
    args: &[String],
    i: usize,
    missing: &'static str,
    no_number: &'static str,
) -> (r: Result<u32, ArgError>)
    requires
        i < args@.len(),
    ensures
        match number_of(args_view(args@), i as int, missing@, no_number@) {
            Ok(v) => r matches Ok(n) && n == v,
            Err(e) => r matches Err(x) && x@ == e,
        },
{
    if args.len() - i > 1 {
        match parse_u32_exec(args[i + 1].as_str()) {
            Some(n) => Ok(n),
            None => Err(ArgError::Bad { message: no_number }),
        }
    } else {
        Err(ArgError::Bad { message: missing })
    }
}

fn join_words(args: &[String], from: usize, to: usize) -> (r: String)
    requires
        from <= to <= args@.len(),
    ensures
        r@ == joined(args_view(args@).subrange(from as int, to as int)),
{
    let ghost all = args_view(args@);
    let mut r = String::new();
    let mut i: usize = from;
    assert(r@ =~= joined(all.subrange(from as int, from as int)));
    while i < to
        invariant
            from <= i <= to <= args@.len(),
            all == args_view(args@),
            r@ == joined(all.subrange(from as int, i as int)),
        decreases to - i,
    {
        let ghost next = all.subrange(from as int, i + 1);
        assert(next.drop_last() =~= all.subrange(from as int, i as int));
        assert(next.last() == args@[i as int]@);
        if i > from {
            r.append(" ");
        }
        r.append(args[i].as_str());
        i += 1;
        assert(r@ =~= joined(next));
    }
    r
}

fn words_end_exec(args: &[String], i: usize) -> (r: usize)
    requires
        i <= args@.len(),
    ensures
        r == words_end(args_view(args@), i as int),
        i <= r <= args@.len(),
{
    let mut j: usize = i;
    while j < args.len() && !is_option_exec(args[j].as_str())
        invariant
            i <= j <= args@.len(),
            words_end(args_view(args@), i as int) == words_end(args_view(args@), j as int),
        decreases args.len() - j,
    {
        j += 1;
    }
    j
}

/// Takes in the argument at `i`; says where the next one is.
fn take_arg(args: &[String], i: usize, d: &mut Draft) -> (r: Result<usize, ArgError>)
    requires
        i < args@.len(),
    ensures
        match arg_step(args_view(args@), i as int, old(d)@) {
            Ok((next, j)) => {
                &&& r matches Ok(k) && k == j && i < k <= args@.len()
                &&& final(d)@ == next
            },
            Err(e) => r matches Err(x) && x@ == e,
        },
{
    let a = args[i].as_str();
    assert(args_view(args@)[i as int] == a@);
    if same_text(a, "--live") {
        d.live = true;
        Ok(i + 1)
    } else if same_text(a, "--signal") {
        d.signal = true;
        Ok(i + 1)
    } else if same_text(a, "--call") {
        match value_at(args, i, "--call requires a fingerprint") {
            Ok(v) => {
                d.call_target = Some(v);
                Ok(i + 2)
            },
            Err(e) => Err(e),
        }
    } else if same_text(a, "--send-tone") {
        match number_at(
            args,
            i,
            "--send-tone requires seconds",
            "--send-tone value must be a number",
        ) {
            Ok(n) => {
                d.send_tone_secs = Some(n);
                Ok(i + 2)
            },
            Err(e) => Err(e),
        }
    } else if same_text(a, "--send-file") {
        match value_at(args, i, "--send-file requires a filename") {
            Ok(v) => {
                d.send_file = Some(v);
                Ok(i + 2)
            },
            Err(e) => Err(e),
        }
    } else if same_text(a, "--seed") {
        match value_at(args, i, "--seed requires hex string") {
            Ok(v) => {
                d.seed_hex = Some(v);
                Ok(i + 2)
            },
            Err(e) => Err(e),
        }
    } else if same_text(a, "--mnemonic") {
        let end: usize = words_end_exec(args, i + 1);
        d.mnemonic = Some(join_words(args, i + 1, end));
        Ok(end)
    } else if same_text(a, "--room") {
        match value_at(args, i, "--room requires a name") {
            Ok(v) => {
                d.room = Some(v);
                Ok(i + 2)
            },
            Err(e) => Err(e),
        }
    } else if same_text(a, "--token") {
        match value_at(args, i, "--token requires a value") {
            Ok(v) => {
                d.token = Some(v);
                Ok(i + 2)
            },
            Err(e) => Err(e),
        }
    } else if same_text(a, "--metrics-file") {
        match value_at(args, i, "--metrics-file requires a path") {
            Ok(v) => {
                d.metrics_file = Some(v);
                Ok(i + 2)
            },
            Err(e) => Err(e),
        }
    } else if same_text(a, "--record") {
        match value_at(args, i, "--record requires a filename") {
            Ok(v) => {
                d.record_file = Some(v);
                Ok(i + 2)
            },
            Err(e) => Err(e),
        }
    } else if same_text(a, "--echo-test") {
        match number_at(
            args,
            i,
            "--echo-test requires seconds",
            "--echo-test value must be a number",
        ) {
            Ok(n) => {
                d.echo_test_secs = Some(n);
                Ok(i + 2)
            },
            Err(e) => Err(e),
        }
    } else if same_text(a, "--drift-test") {
        match number_at(
            args,
            i,
            "--drift-test requires seconds",
            "--drift-test value must be a number",
        ) {
            Ok(n) => {
                d.drift_test_secs = Some(n);
                Ok(i + 2)
            },
            Err(e) => Err(e),
        }
    } else if same_text(a, "--sweep") {
        d.sweep = true;
        Ok(i + 1)
    } else if same_text(a, "--version-check") {
        d.version_check = true;
        Ok(i + 1)
    } else if same_text(a, "--help") || same_text(a, "-h") {
        Err(ArgError::Help)
    } else if d.relay.is_none() && !is_option_exec(a) {
        d.relay = Some(args[i].clone());
        Ok(i + 1)
    } else {
        Err(ArgError::Unknown { argument: args[i].clone() })
    }
}

/// Reads the arguments, without the program's name.
pub fn parse_args(args: &[String]) -> (r: Result<CliArgs, ArgError>)
    ensures
        is_parsed(args_view(args@), r),
{
    let ghost all = args_view(args@);
    let mut d = Draft {
        live: false,
        send_tone_secs: None,
        send_file: None,
        record_file: None,
        echo_test_secs: None,
        drift_test_secs: None,
        sweep: false,
        seed_hex: None,
        mnemonic: None,
        room: None,
        token: None,
        metrics_file: None,
        version_check: false,
        signal: false,
        call_target: None,
        relay: None,
    };
    assert(d@ == empty_draft());
    let mut i: usize = 0;
    while i < args.len()
        invariant
            i <= args@.len(),
            all == args_view(args@),
            args_from(all, 0, empty_draft()) == args_from(all, i as int, d@),
        decreases args.len() - i,
    {
        match take_arg(args, i, &mut d) {
            Ok(next) => {
                i = next;
            },
            Err(e) => {
                return Err(e);
            },
        }
    }
    let relay = match &d.relay {
        Some(s) => SocketAddr::parse(s.as_str()),
        None => SocketAddr::parse("127.0.0.1:4433"),
    };
    match relay {
        None => Err(ArgError::InvalidRelay),
        Some(relay_addr) => Ok(
            CliArgs {
                relay_addr,
                live: d.live,
                send_tone_secs: d.send_tone_secs,
                send_file: d.send_file,
                record_file: d.record_file,
                echo_test_secs: d.echo_test_secs,
                drift_test_secs: d.drift_test_secs,
                sweep: d.sweep,
                seed_hex: d.seed_hex,
                mnemonic: d.mnemonic,
                room: d.room,
                token: d.token,
                metrics_file: d.metrics_file,
                version_check: d.version_check,
                signal: d.signal,
                call_target: d.call_target,
            },
        ),
    }
}

/// What the client is run for.
#[derive(Clone, Copy, Debug, PartialEq, Eq, Structural)]
pub enum Mode {
    Sweep,
    VersionCheck,
    Signal,
    Live,
    EchoTest { secs: u32 },
    DriftTest { secs: u32 },
    /// Send a tone or a file, or record, or both.
    File,
    /// Send silence, to test the connection.
    Silence,
}

/// Where the identity comes from.
#[derive(Debug)]
pub enum SeedSource<'a> {
    Hex(&'a String),
    Mnemonic(&'a String),
    Generated,
}

impl CliArgs {
    /// What is asked for; where several things are, the first of them counts.
    pub fn mode(&self) -> (r: Mode)
        ensures
            r == if self.sweep {
                Mode::Sweep
            } else if self.version_check {
                Mode::VersionCheck
            } else if self.signal {
                Mode::Signal
            } else if self.live {
                Mode::Live
            } else if self.echo_test_secs is Some {
                Mode::EchoTest { secs: self.echo_test_secs->0 }
            } else if self.drift_test_secs is Some {
                Mode::DriftTest { secs: self.drift_test_secs->0 }
            } else if self.send_tone_secs is Some || self.send_file is Some
                || self.record_file is Some {
                Mode::File
            } else {
                Mode::Silence
            },
            r is Sweep <==> self.sweep,
            r is VersionCheck <==> self.version_check && !self.sweep,
            r is Signal ==> self.signal && !self.sweep && !self.version_check,
            r is Live ==> self.live && !self.signal && !self.sweep && !self.version_check,
            r matches Mode::EchoTest { secs } ==> self.echo_test_secs == Some(secs) && !self.live
                && !self.signal,
            r matches Mode::DriftTest { secs } ==> self.drift_test_secs == Some(secs)
                && self.echo_test_secs is None && !self.live,
            r is Silence ==> self.send_tone_secs is None && self.send_file is None
                && self.record_file is None,
    {
        if self.sweep {
            return Mode::Sweep;
        }
        if self.version_check {
            return Mode::VersionCheck;
        }
        if self.signal {
            return Mode::Signal;
        }
        if self.live {
            return Mode::Live;
        }
        if let Some(secs) = self.echo_test_secs {
            return Mode::EchoTest { secs };
        }
        if let Some(secs) = self.drift_test_secs {
            return Mode::DriftTest { secs };
        }
        if self.send_tone_secs.is_some() || self.send_file.is_some() || self.record_file.is_some() {
            return Mode::File;
        }
        Mode::Silence
    }

    /// Where the identity comes from: a seed, else words, else it is new.
    pub fn resolve_seed(&self) -> (r: SeedSource<'_>)
        ensures
            match r {
                SeedSource::Hex(h) => self.seed_hex == Some(*h),
                SeedSource::Mnemonic(w) => self.seed_hex is None && self.mnemonic == Some(*w),
                SeedSource::Generated => self.seed_hex is None && self.mnemonic is None,
            },
    {
        match &self.seed_hex {
            Some(h) => SeedSource::Hex(h),
            None => match &self.mnemonic {
                Some(w) => SeedSource::Mnemonic(w),
                None => SeedSource::Generated,
            },
        }
    }

    /// The server name under which the relay is asked for a room.
    pub fn sni(&self) -> (r: String)
        ensures
            r@ == match self.room {
                Some(name) => name@,
                None => "default"@,
            },
    {
        match &self.room {
            Some(name) => name.clone(),
            None => String::from_str("default"),
        }
    }
}

/// The local address to connect from: any, of the relay's family.
pub fn bind_addr_for(relay: &SocketAddr) -> (r: SocketAddr)
    ensures
        r == match *relay {
            SocketAddr::V6 { .. } => SocketAddr::V6 {
                ip: Ipv6Addr { g0: 0, g1: 0, g2: 0, g3: 0, g4: 0, g5: 0, g6: 0, g7: 0 },
                port: 0,
                scope_id: 0,
            },
            SocketAddr::V4 { .. } => SocketAddr::V4 {
                ip: Ipv4Addr { a: 0, b: 0, c: 0, d: 0 },
                port: 0,
            },
        },
{
    match relay {
        SocketAddr::V6 { .. } => SocketAddr::V6 {
            ip: Ipv6Addr { g0: 0, g1: 0, g2: 0, g3: 0, g4: 0, g5: 0, g6: 0, g7: 0 },
            port: 0,
            scope_id: 0,
        },
        SocketAddr::V4 { .. } => SocketAddr::V4 {
            ip: Ipv4Addr { a: 0, b: 0, c: 0, d: 0 },
            port: 0,
        },
    }
}

// ---------------------------------------------------------------------------
// Audio files
// ---------------------------------------------------------------------------

/// The two bytes of a sample, the low one first.
pub open spec fn sample_bytes(s: i16) -> Seq<u8> {
    seq![(s % 256) as u8, ((s as int + 65536) / 256 % 256) as u8]
}

/// The sample that two bytes stand for, the low one first.
pub open spec fn sample_of(lo: u8, hi: u8) -> i16 {
    let v = lo + hi * 256;
    if v < 32768 {
        v as i16
    } else {
        (v - 65536) as i16
    }
}

/// Samples as bytes.
pub open spec fn pcm_bytes(samples: Seq<i16>) -> Seq<u8> {
    Seq::new(2 * samples.len(), |i: int| sample_bytes(samples[i / 2])[i % 2])
}

/// Bytes as samples; an odd byte at the end is left out.
pub open spec fn pcm_samples(bytes: Seq<u8>) -> Seq<i16> {
    Seq::new(bytes.len() / 2, |i: int| sample_of(bytes[2 * i], bytes[2 * i + 1]))
}

pub fn encode_pcm(samples: &[i16]) -> (r: Vec<u8>)
    ensures
        r@ == pcm_bytes(samples@),
{
    let mut r: Vec<u8> = Vec::new();
    let mut i: usize = 0;
    while i < samples.len()
        invariant
            i <= samples@.len(),
            r@ == pcm_bytes(samples@.take(i as int)),
        decreases samples.len() - i,
    {
        let s: i32 = samples[i] as i32;
        let u: u32 = if s < 0 {
            (s + 65536) as u32
        } else {
            s as u32
        };
        let lo: u8 = (u % 256) as u8;
        let hi: u8 = (u / 256) as u8;
        assert(sample_bytes(samples@[i as int]) =~= seq![lo, hi]);
        let ghost before = r@;
        r.push(lo);
        r.push(hi);
        proof {
            let now = pcm_bytes(samples@.take(i + 1));
            assert forall|k: int| 0 <= k < now.len() implies r@[k] == #[trigger] now[k] by {
                if k < before.len() {
                    assert(before[k] == sample_bytes(samples@.take(i as int)[k / 2])[k % 2]);
                }
            }
            assert(r@ =~= now);
        }
        i += 1;
    }
    assert(samples@.take(i as int) =~= samples@);
    r
}

pub fn decode_pcm(bytes: &[u8]) -> (r: Vec<i16>)
    ensures
        r@ == pcm_samples(bytes@),
{
    let n: usize = bytes.len() / 2;
    let mut r: Vec<i16> = Vec::new();
    let mut i: usize = 0;
    while i < n
        invariant
            i <= n,
            n == bytes@.len() / 2,
            r@.len() == i,
            forall|k: int| 0 <= k < i ==> #[trigger] r@[k] == pcm_samples(bytes@)[k],
        decreases n - i,
    {
        assert(bytes.len() == bytes@.len());
        let v: i32 = bytes[2 * i] as i32 + bytes[2 * i + 1] as i32 * 256;
        let s: i16 = if v < 32768 {
            v as i16
        } else {
            (v - 65536) as i16
        };
        r.push(s);
        i += 1;
    }
    assert(r@ =~= pcm_samples(bytes@));
    r
}

/// What is recorded is what is played back: the bytes of samples stand for
/// the same samples.
pub proof fn lemma_pcm_round_trip(samples: Seq<i16>)
    ensures
        pcm_samples(pcm_bytes(samples)) == samples,
{
    let b = pcm_bytes(samples);
    assert forall|i: int| 0 <= i < samples.len() implies #[trigger] pcm_samples(b)[i]
        == samples[i] by {
        assert(b[2 * i] == sample_bytes(samples[i])[0]);
        assert(b[2 * i + 1] == sample_bytes(samples[i])[1]);
    }
    assert(pcm_samples(b) =~= samples);
}

/// A file of whole samples is written back as it was read.
pub proof fn lemma_pcm_bytes_round_trip(bytes: Seq<u8>)
    requires
        bytes.len() % 2 == 0,
    ensures
        pcm_bytes(pcm_samples(bytes)) == bytes,
{
    let s = pcm_samples(bytes);
    assert forall|i: int| 0 <= i < bytes.len() implies #[trigger] pcm_bytes(s)[i] == bytes[i] by {
        let k = i / 2;
        assert(s[k] == sample_of(bytes[2 * k], bytes[2 * k + 1]));
        assert(i == 2 * k || i == 2 * k + 1);
    }
    assert(pcm_bytes(s) =~= bytes);
}

/// The whole frames of some samples; what is left over at the end is not
/// sent.
pub open spec fn whole_frames(samples: Seq<i16>) -> Seq<Seq<i16>> {
    Seq::new(samples.len() / 960, |i: int| samples.subrange(960 * i, 960 * i + 960))
}

pub open spec fn frames_view(v: Seq<Vec<i16>>) -> Seq<Seq<i16>> {
    v.map_values(|f: Vec<i16>| f@)
}

pub fn split_frames(samples: &[i16]) -> (r: Vec<Vec<i16>>)
    ensures
        frames_view(r@) == whole_frames(samples@),
{
    let n: usize = samples.len() / FRAME_SAMPLES;
    let mut r: Vec<Vec<i16>> = Vec::new();
    let mut i: usize = 0;
    while i < n
        invariant
            i <= n,
            n == samples@.len() / 960,
            frames_view(r@) == whole_frames(samples@).take(i as int),
        decreases n - i,
    {
        assert(samples.len() == samples@.len());
        let start: usize = FRAME_SAMPLES * i;
        let mut frame: Vec<i16> = Vec::new();
        let mut k: usize = 0;
        while k < FRAME_SAMPLES
            invariant
                k <= 960,
                start + 960 <= samples@.len(),
                samples@.len() <= usize::MAX,
                frame@ == samples@.subrange(start as int, start + k),
            decreases 960 - k,
        {
            frame.push(samples[start + k]);
            k += 1;
            assert(frame@ =~= samples@.subrange(start as int, start + k));
        }
        let ghost before = frames_view(r@);
        r.push(frame);
        i += 1;
        proof {
            assert(frames_view(r@) =~= before.push(whole_frames(samples@)[i - 1]));
            assert(frames_view(r@) =~= whole_frames(samples@).take(i as int));
        }
    }
    assert(whole_frames(samples@).take(i as int) =~= whole_frames(samples@));
    r
}

/// Frames in some seconds of tone.
pub fn tone_frames(secs: u32) -> (r: u64)
    ensures
        r == secs * 50,
        r * 960 == secs * 48_000,
{
    secs as u64 * 50
}

/// What has been sent.
#[derive(Clone, Copy, Debug, PartialEq, Eq, Structural)]
pub struct PacketTotals {
    pub source: u64,
    pub repair: u64,
    pub bytes: u64,
}

impl PacketTotals {
    pub fn new() -> (r: Self)
        ensures
            r == (PacketTotals { source: 0, repair: 0, bytes: 0 }),
    {
        PacketTotals { source: 0, repair: 0, bytes: 0 }
    }

    /// Counts a packet.
    pub fn count(&mut self, packet: &MediaPacket)
        requires
            old(self).source < u64::MAX,
            old(self).repair < u64::MAX,
            old(self).bytes + packet.payload@.len() <= u64::MAX,
        ensures
            *final(self) == (PacketTotals {
                source: (old(self).source + if packet.header.is_repair {
                    0int
                } else {
                    1
                }) as u64,
                repair: (old(self).repair + if packet.header.is_repair {
                    1int
                } else {
                    0
                }) as u64,
                bytes: (old(self).bytes + packet.payload@.len()) as u64,
            }),
    {
        if packet.header.is_repair {
            self.repair = self.repair + 1;
        } else {
            self.source = self.source + 1;
        }
        self.bytes = self.bytes + packet.payload.len() as u64;
    }
}

// ---------------------------------------------------------------------------
// Signals
// ---------------------------------------------------------------------------

/// Why a registration failed.
#[derive(Debug)]
pub enum RegistrationError {
    /// The relay says no, and perhaps why.
    Refused { reason: String },
    /// Something else was answered, or nothing.
    Unexpected,
}

impl RegistrationError {
    /// What is told of the failure. What else was answered is not said.
    pub open spec fn message(self) -> Seq<char> {
        match self {
            RegistrationError::Refused { reason } => "registration failed: "@ + reason@,
            RegistrationError::Unexpected => "unexpected response"@,
        }
    }

    pub fn to_string(&self) -> (r: String)
        ensures
            r@ == self.message(),
    {
        match self {
            RegistrationError::Refused { reason } => {
                let mut m = String::from_str("registration failed: ");
                m.append(reason.as_str());
                m
            },
            RegistrationError::Unexpected => String::from_str("unexpected response"),
        }
    }
}

/// Reads the answer to a registration.
pub fn registration(answer: Option<&SignalMessage>) -> (r: Result<(), RegistrationError>)
    ensures
        match answer {
            Some(SignalMessage::RegisterPresenceAck { success, error }) => if *success {
                r is Ok
            } else {
                r matches Err(RegistrationError::Refused { reason }) && reason@ == match *error {
                    Some(e) => e@,
                    None => Seq::empty(),
                }
            },
            _ => r matches Err(RegistrationError::Unexpected),
        },
{
    match answer {
        Some(SignalMessage::RegisterPresenceAck { success, error }) => {
            if *success {
                Ok(())
            } else {
                let reason = match error {
                    Some(e) => e.clone(),
                    None => String::new(),
                };
                Err(RegistrationError::Refused { reason })
            }
        },
        _ => Err(RegistrationError::Unexpected),
    }
}

/// The signal that places a call. The call is named after the time, in
/// nanoseconds of the wall clock.
pub fn direct_offer(
    fingerprint: &str,
    target: &str,
    nanos: u64,
    identity_pub: Vec<u8>,
) -> (r: SignalMessage)
    ensures
        match r {
            SignalMessage::DirectCallOffer {
                caller_fingerprint,
                caller_alias,
                target_fingerprint,
                call_id,
                identity_pub: id,
                ephemeral_pub,
                signature,
                supported_profiles,
            } => {
                &&& caller_fingerprint@ == fingerprint@
                &&& caller_alias is None
                &&& target_fingerprint@ == target@
                &&& call_id@ == hex_padded(nanos as nat, 16)
                &&& call_id@.len() == 2 * 8 && crate::text::hex_value(call_id@) == nanos
                &&& id == identity_pub
                &&& ephemeral_pub@ == Seq::new(32, |i: int| 0u8)
                &&& signature@ == Seq::<u8>::empty()
                &&& supported_profiles@ == seq![good_profile()]
            },
            _ => false,
        },
{
    let mut call_id = String::new();
    push_hex_padded(&mut call_id, nanos, 16);
    assert(call_id@ =~= hex_padded(nanos as nat, 16));
    proof {
        crate::text::lemma_hex_of_u64(nanos);
    }
    let ephemeral_pub: Vec<u8> = vec![0u8; 32];
    let supported_profiles: Vec<QualityProfile> = vec![QualityProfile::good()];
    assert(supported_profiles@ =~= seq![good_profile()]);
    SignalMessage::DirectCallOffer {
        caller_fingerprint: String::from_str(fingerprint),
        caller_alias: None,
        target_fingerprint: String::from_str(target),
        call_id,
        identity_pub,
        ephemeral_pub,
        signature: Vec::new(),
        supported_profiles,
    }
}

/// What a signal asks of the client.
#[derive(Debug)]
pub enum SignalStep {
    Nothing,
    /// Answer with this.
    Send(SignalMessage),
    /// Join the room of a call.
    JoinMedia { relay: SocketAddr, room: String },
}

/// Decides on a signal: every call is accepted, and the room of a call is
/// joined on the relay that it names, or else on ours.
pub fn on_signal(msg: &SignalMessage, relay: SocketAddr, identity_pub: Vec<u8>) -> (r: SignalStep)
    ensures
        match *msg {
            SignalMessage::DirectCallOffer { call_id, .. } => match r {
                SignalStep::Send(
                    SignalMessage::DirectCallAnswer {
                        call_id: id,
                        accept_mode,
                        identity_pub: i,
                        ephemeral_pub,
                        signature,
                        chosen_profile,
                    },
                ) => {
                    &&& id@ == call_id@
                    &&& accept_mode == CallAcceptMode::AcceptGeneric
                    &&& i == Some(identity_pub)
                    &&& ephemeral_pub is None
                    &&& signature is None
                    &&& chosen_profile == Some(good_profile())
                },
                _ => false,
            },
            SignalMessage::CallSetup { room, relay_addr, .. } => r matches SignalStep::JoinMedia {
                relay: a,
                room: n,
            } && n@ == room@ && a == match parse_socket(relay_addr@) {
                Some(x) => x,
                None => relay,
            },
            _ => r is Nothing,
        },
{
    match msg {
        SignalMessage::DirectCallOffer { call_id, .. } => SignalStep::Send(
            SignalMessage::DirectCallAnswer {
                call_id: call_id.clone(),
                accept_mode: CallAcceptMode::AcceptGeneric,
                identity_pub: Some(identity_pub),
                ephemeral_pub: None,
                signature: None,
                chosen_profile: Some(QualityProfile::good()),
            },
        ),
        SignalMessage::CallSetup { room, relay_addr, .. } => {
            let media = match SocketAddr::parse(relay_addr.as_str()) {
                Some(x) => x,
                None => relay,
            };
            SignalStep::JoinMedia { relay: media, room: room.clone() }
        },
        _ => SignalStep::Nothing,
    }
}

/// What happens while in a call.
pub enum CallEvent {
    Signal(SignalMessage),
    /// The connection is gone.
    Closed,
    /// The user wants to stop.
    Interrupted,
}

/// What to do about it.
#[derive(Debug)]
pub enum CallStep {
    GoOn,
    End,
    /// Send this, then end.
    HangUp(SignalMessage),
}

pub fn in_call(event: CallEvent) -> (r: CallStep)
    ensures
        match event {
            CallEvent::Signal(SignalMessage::Hangup { .. }) => r is End,
            CallEvent::Signal(_) => r is GoOn,
            CallEvent::Closed => r is End,
            CallEvent::Interrupted => r == CallStep::HangUp(
                SignalMessage::Hangup { reason: HangupReason::Normal },
            ),
        },
{
    match event {
        CallEvent::Signal(SignalMessage::Hangup { .. }) => CallStep::End,
        CallEvent::Signal(_) => CallStep::GoOn,
        CallEvent::Closed => CallStep::End,
        CallEvent::Interrupted => CallStep::HangUp(
            SignalMessage::Hangup { reason: HangupReason::Normal },
        ),
    }
}

/// Of the two bytes of a sample the first counts once and the second 256
/// times.
pub proof fn lemma_sample_byte_order(s: i16, lo: u8, hi: u8)
    ensures
        sample_bytes(s).len() == 2,
        (sample_bytes(s)[0] + 256 * sample_bytes(s)[1] - s) % 65536 == 0,
        (sample_of(lo, hi) - lo - 256 * hi) % 65536 == 0,
{
}

/// The frames of a recording are its samples in order, 20 ms each at 48 kHz,
/// and less than a frame is left over.
pub proof fn lemma_frames_in_order(samples: Seq<i16>, i: int, k: int)
    requires
        0 <= i < whole_frames(samples).len(),
        0 <= k < 960,
    ensures
        960 * whole_frames(samples).len() <= samples.len(),
        samples.len() < 960 * whole_frames(samples).len() + 960,
        whole_frames(samples)[i].len() == 960,
        whole_frames(samples)[i][k] == samples[960 * i + k],
{
}

/// A number is read from its decimal digits, with or without a plus sign, as
/// long as it fits into 32 bits.
pub proof fn lemma_numbers_read(n: nat)
    ensures
        parse_u32(crate::text::decimal(n)) == if n < 0x1_0000_0000 {
            Some(n as u32)
        } else {
            None
        },
        parse_u32(seq!['+'] + crate::text::decimal(n)) == parse_u32(crate::text::decimal(n)),
{
    let t = crate::text::decimal(n);
    crate::text::lemma_decimal_round_trip(n);
    assert(crate::text::is_decimal_digit(t[0]));
    assert((seq!['+'] + t).skip(1) =~= t);
}

/// The words of a mnemonic are all that stand before the next option.
pub proof fn lemma_words_up_to_option(args: Seq<Seq<char>>, i: int)
    requires
        0 <= i <= args.len(),
    ensures
        forall|j: int| i <= j < words_end(args, i) ==> !is_option(#[trigger] args[j]),
        words_end(args, i) < args.len() ==> is_option(args[words_end(args, i)]),
    decreases args.len() - i,
{
    lemma_words_end(args, i);
    if i < args.len() && !is_option(args[i]) {
        lemma_words_up_to_option(args, i + 1);
    }
}

/// Words that are joined come apart again at the spaces.
pub proof fn lemma_joined_words(words: Seq<Seq<char>>)
    requires
        words.len() > 0,
        forall|i: int| 0 <= i < words.len() ==> crate::text::has_no(#[trigger] words[i], ' '),
    ensures
        crate::text::split(joined(words), ' ') == words,
    decreases words.len(),
{
    reveal_strlit(" ");
    assert(" "@ =~= seq![' ']);
    assert(crate::text::has_no(words[words.len() - 1], ' '));
    if words.len() == 1 {
        crate::text::lemma_split_one(words[0], ' ');
        assert(seq![words[0]] =~= words);
    } else {
        let front = words.drop_last();
        assert forall|i: int| 0 <= i < front.len() implies crate::text::has_no(
            #[trigger] front[i],
            ' ',
        ) by {
            assert(front[i] == words[i]);
        }
        lemma_joined_words(front);
        crate::text::lemma_split_last(joined(front), ' ', words.last());
        assert(front.push(words.last()) =~= words);
    }
}

/// Without a relay among the arguments it is port 4433 of this machine.
pub proof fn lemma_default_relay(d: DraftView)
    requires
        d.relay is None,
    ensures
        relay_of(d) == Some(
            SocketAddr::V4 { ip: Ipv4Addr { a: 127, b: 0, c: 0, d: 1 }, port: 4433 },
        ),
{
    let addr = SocketAddr::V4 { ip: Ipv4Addr { a: 127, b: 0, c: 0, d: 1 }, port: 4433 };
    reveal_strlit("127.0.0.1:4433");
    crate::net::lemma_socket_round_trip(addr);
    reveal_with_fuel(crate::text::decimal, 4);
    assert(crate::net::socket_text(addr) =~= "127.0.0.1:4433"@);
}

} // verus!
