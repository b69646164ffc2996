//! Message codec: serializes and deserializes the tagged message union to
//! and from a self-delimited text frame.
//!
//! A frame is a single line of JSON text; the frame boundary is the newline
//! character, so the encoder escapes every character that could produce an
//! embedded newline or terminate a string early. The decoder accepts the
//! shape the encoder produces; a frame that does not match the grammar is a
//! protocol error, and the empty frame (the connection-closed signal) is the
//! `Closed` sentinel, never an error.
use crate::agent::{
    AgentAck, AgentAppExitCode, AgentError, AgentMessage, AgentMountRequest, AgentReady,
    AgentRunRequest, MsgV,
};
use crate::clipboard::ClipboardEvent;
use crate::dbus_notifications::DbusNotification;
use crate::runner::{QemuSharedDir, QemuSharedDirType, SharedDirV};
use vstd::prelude::*;
use vstd::string::StrSliceExecFns;

verus! {

// ---------------------------------------------------------------------------
// String escaping
// ---------------------------------------------------------------------------
/// How one payload character appears inside a quoted JSON string: backslash,
/// double quote and newline are escaped, everything else stands for itself.
pub open spec fn escape_char(c: char) -> Seq<char> {
    if c == '\\' {
        seq!['\\', '\\']
    } else if c == '"' {
        seq!['\\', '"']
    } else if c == '\n' {
        seq!['\\', 'n']
    } else {
        seq![c]
    }
}

/// The escaped form of a whole payload string.
pub open spec fn escape(s: Seq<char>) -> Seq<char>
    decreases s.len(),
{
    if s.len() == 0 {
        Seq::empty()
    } else {
        escape_char(s[0]) + escape(s.drop_first())
    }
}

/// Escaping distributes over concatenation.
pub proof fn lemma_escape_append(a: Seq<char>, b: Seq<char>)
    ensures
        escape(a + b) == escape(a) + escape(b),
    decreases a.len(),
{
    if a.len() == 0 {
        assert(a + b =~= b);
        assert(escape(a) + escape(b) =~= escape(b));
    } else {
        assert((a + b).drop_first() =~= a.drop_first() + b);
        lemma_escape_append(a.drop_first(), b);
        assert(escape(a + b) =~= escape(a) + escape(b));
    }
}

/// Escaping one more character on the right.
pub proof fn lemma_escape_snoc(a: Seq<char>, c: char)
    ensures
        escape(a.push(c)) == escape(a) + escape_char(c),
{
    assert(a.push(c) =~= a + seq![c]);
    lemma_escape_append(a, seq![c]);
    assert(seq![c].drop_first() =~= Seq::<char>::empty());
    assert(seq![c].len() == 1 && seq![c][0] == c);
    assert(escape(seq![c]) == escape_char(c) + escape(Seq::<char>::empty()));
    assert(escape(seq![c]) =~= escape_char(c));
}

// ---------------------------------------------------------------------------
// Decimal integers
// ---------------------------------------------------------------------------
/// The character for one decimal digit.
pub open spec fn digit_char(d: int) -> char {
    if d == 0 {
        '0'
    } else if d == 1 {
        '1'
    } else if d == 2 {
        '2'
    } else if d == 3 {
        '3'
    } else if d == 4 {
        '4'
    } else if d == 5 {
        '5'
    } else if d == 6 {
        '6'
    } else if d == 7 {
        '7'
    } else if d == 8 {
        '8'
    } else {
        '9'
    }
}

/// Decimal digits of a non-negative integer, most significant first, no
/// leading zeros.
pub open spec fn dec_digits(n: int) -> Seq<char>
    decreases n,
{
    if n <= 9 {
        seq![digit_char(if n < 0 { 0 } else { n })]
    } else {
        dec_digits(n / 10) + seq![digit_char(n % 10)]
    }
}

/// Decimal form of a signed integer.
pub open spec fn int_digits(n: int) -> Seq<char> {
    if n < 0 {
        seq!['-'] + dec_digits(-n)
    } else {
        dec_digits(n)
    }
}

// ---------------------------------------------------------------------------
// The frame grammar
// ---------------------------------------------------------------------------
/// Everything of a `Ready` frame before the version string's characters.
pub open spec fn pre_ready() -> Seq<char> {
    "{\"AgentReady\":{\"version\":\""@
}

/// Everything of an `Ack` frame before the status digits.
pub open spec fn pre_ack() -> Seq<char> {
    "{\"AgentAck\":{\"status\":"@
}

/// Everything of a `MountRequest` frame before the directory kind.
pub open spec fn pre_mount() -> Seq<char> {
    "{\"AgentMountRequest\":{\"shared_dir\":{\"dir_type\":\""@
}

/// Everything of a `RunRequest` frame before the application name.
pub open spec fn pre_run() -> Seq<char> {
    "{\"AgentRunRequest\":{\"app\":\""@
}

/// Everything of an `AppExitCode` frame before the exit code digits.
pub open spec fn pre_exit() -> Seq<char> {
    "{\"AgentAppExitCode\":{\"code\":"@
}

/// Everything of a `ClipboardEvent` frame before the payload.
pub open spec fn pre_clip() -> Seq<char> {
    "{\"ClipboardEvent\":{\"data\":\""@
}

/// Everything of a `DbusNotification` frame before the summary.
pub open spec fn pre_dbus() -> Seq<char> {
    "{\"DbusNotification\":{\"summary\":\""@
}

/// The directory kind, together with the key that follows it.
pub open spec fn dir_lit(t: QemuSharedDirType) -> Seq<char> {
    match t {
        QemuSharedDirType::FlatpakSystemDir => "FlatpakSystemDir\",\"app_name\":\""@,
        QemuSharedDirType::FlatpakUserDir => "FlatpakUserDir\",\"app_name\":\""@,
        QemuSharedDirType::FlatpakAppDir => "FlatpakAppDir\",\"app_name\":\""@,
    }
}

/// Key between the mount request's app name and its source path.
pub open spec fn mid_source() -> Seq<char> {
    ",\"source\":\""@
}

/// Key between the mount request's source path and its mount tag.
pub open spec fn mid_tag() -> Seq<char> {
    ",\"tag\":\""@
}

/// Key between the mount request's tag and its read-only flag.
pub open spec fn mid_readonly() -> Seq<char> {
    ",\"readonly\":"@
}

/// Key between the run request's app name and its user flag.
pub open spec fn mid_user() -> Seq<char> {
    ",\"user\":"@
}

/// Key between the run request's user flag and its session flag.
pub open spec fn mid_dbus() -> Seq<char> {
    ",\"dbus_session\":"@
}

/// Key between the notification's summary and its body.
pub open spec fn mid_body() -> Seq<char> {
    ",\"body\":\""@
}

/// Closing braces of a frame whose payload object nests once.
pub open spec fn tail2() -> Seq<char> {
    "}}"@
}

/// Closing braces of the mount request frame, whose payload nests twice.
pub open spec fn tail3() -> Seq<char> {
    "}}}"@
}

/// A JSON boolean literal.
pub open spec fn bool_lit(b: bool) -> Seq<char> {
    if b {
        "true"@
    } else {
        "false"@
    }
}

/// The escaped characters of a payload string followed by its closing quote.
pub open spec fn str_close(s: Seq<char>) -> Seq<char> {
    escape(s) + seq!['"']
}

/// The complete frame text for one message, without the newline terminator.
/// The `Closed` sentinel is never sent; its frame is defined as empty.
pub open spec fn spec_encode(m: MsgV) -> Seq<char> {
    match m {
        MsgV::Ready { version } => pre_ready() + str_close(version) + tail2(),
        MsgV::Ack { status } => pre_ack() + int_digits(status) + tail2(),
        MsgV::MountRequest { shared_dir } => pre_mount() + dir_lit(shared_dir.dir_type)
            + str_close(shared_dir.app_name) + mid_source() + str_close(shared_dir.source)
            + mid_tag() + str_close(shared_dir.tag) + mid_readonly() + bool_lit(
            shared_dir.readonly,
        ) + tail3(),
        MsgV::RunRequest { app, user, dbus_session } => pre_run() + str_close(app) + mid_user()
            + bool_lit(user) + mid_dbus() + bool_lit(dbus_session) + tail2(),
        MsgV::AppExitCode { code } => pre_exit() + int_digits(code) + tail2(),
        MsgV::Closed => Seq::empty(),
        MsgV::ClipboardEvent { data } => pre_clip() + str_close(data) + tail2(),
        MsgV::DbusNotification { summary, body } => pre_dbus() + str_close(summary) + mid_body()
            + str_close(body) + tail2(),
    }
}

/// A message the wire can carry: not the local `Closed` sentinel, and its
/// integer fields within the protocol's 32-bit signed range.
pub open spec fn msg_wf(m: MsgV) -> bool {
    &&& !(m is Closed)
    &&& (m is Ack ==> i32::MIN <= m->Ack_status <= i32::MAX)
    &&& (m is AppExitCode ==> i32::MIN <= m->AppExitCode_code <= i32::MAX)
}

// ---------------------------------------------------------------------------
// Encoder
// ---------------------------------------------------------------------------
/// Appends the characters of a literal.
pub(crate) fn push_lit(out: &mut Vec<char>, lit: &str)
    ensures
        final(out)@ == old(out)@ + lit@,
{
    let n = lit.unicode_len();
    let mut j: usize = 0;
    while j < n
        invariant
            n == lit@.len(),
            j <= n,
            out@ == old(out)@ + lit@.subrange(0, j as int),
        decreases n - j,
    {
        let c = lit.get_char(j);
        out.push(c);
        proof {
            assert(lit@.subrange(0, j + 1) =~= lit@.subrange(0, j as int).push(lit@[j as int]));
        }
        j = j + 1;
    }
    proof {
        assert(lit@.subrange(0, n as int) =~= lit@);
    }
}

/// Appends the escaped form of a payload string.
fn push_escaped(out: &mut Vec<char>, s: &str)
    ensures
        final(out)@ == old(out)@ + escape(s@),
{
    let n = s.unicode_len();
    let mut j: usize = 0;
    proof {
        assert(s@.subrange(0, 0) =~= Seq::<char>::empty());
    }
    while j < n
        invariant
            n == s@.len(),
            j <= n,
            out@ == old(out)@ + escape(s@.subrange(0, j as int)),
        decreases n - j,
    {
        let c = s.get_char(j);
        if c == '\\' {
            out.push('\\');
            out.push('\\');
        } else if c == '"' {
            out.push('\\');
            out.push('"');
        } else if c == '\n' {
            out.push('\\');
            out.push('n');
        } else {
            out.push(c);
        }
        proof {
            assert(s@.subrange(0, j + 1) =~= s@.subrange(0, j as int).push(s@[j as int]));
            lemma_escape_snoc(s@.subrange(0, j as int), s@[j as int]);
        }
        j = j + 1;
    }
    proof {
        assert(s@.subrange(0, n as int) =~= s@);
    }
}

/// The character of one decimal digit.
fn digit_of(d: u64) -> (c: char)
    requires
        d <= 9,
    ensures
        c == digit_char(d as int),
{
    match d {
        0 => '0',
        1 => '1',
        2 => '2',
        3 => '3',
        4 => '4',
        5 => '5',
        6 => '6',
        7 => '7',
        8 => '8',
        _ => '9',
    }
}

/// Appends the decimal digits of a non-negative number.
pub(crate) fn push_dec(out: &mut Vec<char>, n: u64)
    ensures
        final(out)@ == old(out)@ + dec_digits(n as int),
    decreases n,
{
    if n <= 9 {
        let c = digit_of(n);
        out.push(c);
        proof {
            assert(old(out)@ + dec_digits(n as int) =~= old(out)@.push(digit_char(n as int)));
        }
    } else {
        push_dec(out, n / 10);
        let c = digit_of(n % 10);
        out.push(c);
        proof {
            assert(old(out)@ + dec_digits(n as int) =~= (old(out)@ + dec_digits(n as int / 10)).push(
                digit_char(n as int % 10),
            ));
        }
    }
}

/// Appends the decimal form of a signed 32-bit number.
fn push_int(out: &mut Vec<char>, v: i32)
    ensures
        final(out)@ == old(out)@ + int_digits(v as int),
{
    if v < 0 {
        out.push('-');
        let wide: i64 = v as i64;
        let mag: u64 = (-wide) as u64;
        proof {
            assert(mag as int == -(v as int));
            assert(old(out)@ + int_digits(v as int) =~= old(out)@.push('-') + dec_digits(
                -(v as int),
            ));
        }
        push_dec(out, mag);
    } else {
        push_dec(out, v as u64);
    }
}

/// Relies on `String`'s `FromIterator<char>` implementation: collecting an
/// iterator of characters yields the string of exactly those characters in
/// order.
#[verifier::external_body]
pub(crate) fn chars_to_string(v: &Vec<char>) -> (s: String)
    ensures
        s@ == v@,
{
    v.iter().collect()
}

/// The characters of a line, in order.
pub fn str_to_chars(s: &str) -> (v: Vec<char>)
    ensures
        v@ == s@,
{
    let n = s.unicode_len();
    let mut v: Vec<char> = Vec::new();
    let mut j: usize = 0;
    while j < n
        invariant
            n == s@.len(),
            j <= n,
            v@ == s@.subrange(0, j as int),
        decreases n - j,
    {
        let c = s.get_char(j);
        v.push(c);
        proof {
            assert(s@.subrange(0, j + 1) =~= s@.subrange(0, j as int).push(s@[j as int]));
        }
        j = j + 1;
    }
    proof {
        assert(s@.subrange(0, n as int) =~= s@);
    }
    v
}

/// Serializes one message to its frame text, without the newline
/// terminator. The `Closed` sentinel is local to a channel and never
/// encoded.
pub fn encode_message(m: &AgentMessage) -> (r: String)
    requires
        !(m@ is Closed),
    ensures
        r@ == spec_encode(m@),
{
    let mut out: Vec<char> = Vec::new();
    match m {
        AgentMessage::AgentReady(msg) => {
            push_lit(&mut out, "{\"AgentReady\":{\"version\":\"");
            push_escaped(&mut out, msg.version.as_str());
            out.push('"');
            push_lit(&mut out, "}}");
        },
        AgentMessage::AgentAck(msg) => {
            push_lit(&mut out, "{\"AgentAck\":{\"status\":");
            push_int(&mut out, msg.status);
            push_lit(&mut out, "}}");
        },
        AgentMessage::AgentMountRequest(msg) => {
            push_lit(&mut out, "{\"AgentMountRequest\":{\"shared_dir\":{\"dir_type\":\"");
            match msg.shared_dir.dir_type {
                QemuSharedDirType::FlatpakSystemDir => {
                    push_lit(&mut out, "FlatpakSystemDir\",\"app_name\":\"");
                },
                QemuSharedDirType::FlatpakUserDir => {
                    push_lit(&mut out, "FlatpakUserDir\",\"app_name\":\"");
                },
                QemuSharedDirType::FlatpakAppDir => {
                    push_lit(&mut out, "FlatpakAppDir\",\"app_name\":\"");
                },
            }
            push_escaped(&mut out, msg.shared_dir.app_name.as_str());
            out.push('"');
            push_lit(&mut out, ",\"source\":\"");
            push_escaped(&mut out, msg.shared_dir.source.as_str());
            out.push('"');
            push_lit(&mut out, ",\"tag\":\"");
            push_escaped(&mut out, msg.shared_dir.tag.as_str());
            out.push('"');
            push_lit(&mut out, ",\"readonly\":");
            if msg.shared_dir.readonly {
                push_lit(&mut out, "true");
            } else {
                push_lit(&mut out, "false");
            }
            push_lit(&mut out, "}}}");
        },
        AgentMessage::AgentRunRequest(msg) => {
            push_lit(&mut out, "{\"AgentRunRequest\":{\"app\":\"");
            push_escaped(&mut out, msg.app.as_str());
            out.push('"');
            push_lit(&mut out, ",\"user\":");
            if msg.user {
                push_lit(&mut out, "true");
            } else {
                push_lit(&mut out, "false");
            }
            push_lit(&mut out, ",\"dbus_session\":");
            if msg.dbus_session {
                push_lit(&mut out, "true");
            } else {
                push_lit(&mut out, "false");
            }
            push_lit(&mut out, "}}");
        },
        AgentMessage::AgentAppExitCode(msg) => {
            push_lit(&mut out, "{\"AgentAppExitCode\":{\"code\":");
            push_int(&mut out, msg.code);
            push_lit(&mut out, "}}");
        },
        AgentMessage::AgentClosed => {
            proof {
                assert(false);
            }
        },
        AgentMessage::ClipboardEvent(msg) => {
            push_lit(&mut out, "{\"ClipboardEvent\":{\"data\":\"");
            push_escaped(&mut out, msg.data.as_str());
            out.push('"');
            push_lit(&mut out, "}}");
        },
        AgentMessage::DbusNotification(msg) => {
            push_lit(&mut out, "{\"DbusNotification\":{\"summary\":\"");
            push_escaped(&mut out, msg.summary.as_str());
            out.push('"');
            push_lit(&mut out, ",\"body\":\"");
            push_escaped(&mut out, msg.body.as_str());
            out.push('"');
            push_lit(&mut out, "}}");
        },
    }
    proof {
        assert(out@ =~= spec_encode(m@));
    }
    chars_to_string(&out)
}

/// The frame as sent on the wire: the frame text with its newline
/// terminator.
pub fn encode_frame_line(m: &AgentMessage) -> (r: String)
    requires
        !(m@ is Closed),
    ensures
        r@ == spec_encode(m@) + seq!['\n'],
{
    let encoded = encode_message(m);
    let mut out = str_to_chars(encoded.as_str());
    out.push('\n');
    chars_to_string(&out)
}

// ---------------------------------------------------------------------------
// Decoder, spec level
// ---------------------------------------------------------------------------
/// Whether the frame carries this literal at this position; on a match,
/// the position just past it.
pub open spec fn spec_expect(f: Seq<char>, i: int, lit: Seq<char>) -> Option<int> {
    if 0 <= i && i + lit.len() <= f.len() && f.subrange(i, i + lit.len()) == lit {
        Some(i + lit.len())
    } else {
        None
    }
}

/// The character an escape code stands for.
pub open spec fn unescape_code(c: char) -> Option<char> {
    if c == '\\' {
        Some('\\')
    } else if c == '"' {
        Some('"')
    } else if c == 'n' {
        Some('\n')
    } else {
        None
    }
}

/// Reads a quoted string's characters from this position up to and
/// including the closing quote, undoing the escaping.
pub open spec fn spec_parse_string(f: Seq<char>, i: int) -> Option<(Seq<char>, int)>
    decreases f.len() - i,
{
    if i < 0 || i >= f.len() {
        None
    } else if f[i] == '"' {
        Some((Seq::empty(), i + 1))
    } else if f[i] == '\\' {
        if i + 1 < f.len() {
            match unescape_code(f[i + 1]) {
                Some(c) => match spec_parse_string(f, i + 2) {
                    Some(p) => Some((seq![c] + p.0, p.1)),
                    None => None,
                },
                None => None,
            }
        } else {
            None
        }
    } else {
        match spec_parse_string(f, i + 1) {
            Some(p) => Some((seq![f[i]] + p.0, p.1)),
            None => None,
        }
    }
}

/// Whether the character is a decimal digit.
pub open spec fn is_digit(c: char) -> bool {
    48 <= c as u32 <= 57
}

/// The value of a digit character.
pub open spec fn digit_val(c: char) -> int {
    c as u32 - 48
}

/// Reads a run of digits, folding them into an accumulator; gives up when
/// the value passes the magnitude any 32-bit signed number can have.
pub open spec fn scan_digits(f: Seq<char>, i: int, acc: int) -> Option<(int, int)>
    decreases f.len() - i,
{
    if 0 <= i && i < f.len() && is_digit(f[i]) {
        if acc * 10 + digit_val(f[i]) <= 2147483648 {
            scan_digits(f, i + 1, acc * 10 + digit_val(f[i]))
        } else {
            None
        }
    } else {
        Some((acc, i))
    }
}

/// Reads a signed decimal number in the 32-bit signed range.
pub open spec fn spec_parse_int(f: Seq<char>, i: int) -> Option<(int, int)> {
    if 0 <= i && i < f.len() && f[i] == '-' {
        if i + 1 < f.len() && is_digit(f[i + 1]) {
            match scan_digits(f, i + 1, 0) {
                Some(p) => if 1 <= p.0 <= 2147483648 {
                    Some((-p.0, p.1))
                } else {
                    None
                },
                None => None,
            }
        } else {
            None
        }
    } else if 0 <= i && i < f.len() && is_digit(f[i]) {
        match scan_digits(f, i, 0) {
            Some(p) => if p.0 <= 2147483647 {
                Some((p.0, p.1))
            } else {
                None
            },
            None => None,
        }
    } else {
        None
    }
}

/// Reads a boolean literal.
pub open spec fn spec_parse_bool(f: Seq<char>, i: int) -> Option<(bool, int)> {
    if spec_expect(f, i, "true"@) is Some {
        Some((true, spec_expect(f, i, "true"@)->0))
    } else if spec_expect(f, i, "false"@) is Some {
        Some((false, spec_expect(f, i, "false"@)->0))
    } else {
        None
    }
}

/// The rest of a `Ready` frame after its fixed prefix.
pub open spec fn dec_ready(f: Seq<char>, i: int) -> Option<MsgV> {
    match spec_parse_string(f, i) {
        Some(p) => match spec_expect(f, p.1, tail2()) {
            Some(e) => if e == f.len() {
                Some(MsgV::Ready { version: p.0 })
            } else {
                None
            },
            None => None,
        },
        None => None,
    }
}

/// The rest of an `Ack` frame after its fixed prefix.
pub open spec fn dec_ack(f: Seq<char>, i: int) -> Option<MsgV> {
    match spec_parse_int(f, i) {
        Some(p) => match spec_expect(f, p.1, tail2()) {
            Some(e) => if e == f.len() {
                Some(MsgV::Ack { status: p.0 })
            } else {
                None
            },
            None => None,
        },
        None => None,
    }
}

/// The fields of a `MountRequest` frame after its directory kind.
pub open spec fn dec_mount_rest(f: Seq<char>, i: int, t: QemuSharedDirType) -> Option<MsgV> {
    match spec_parse_string(f, i) {
        Some(pa) => match spec_expect(f, pa.1, mid_source()) {
            Some(j1) => match spec_parse_string(f, j1) {
                Some(ps) => match spec_expect(f, ps.1, mid_tag()) {
                    Some(j2) => match spec_parse_string(f, j2) {
                        Some(pt) => match spec_expect(f, pt.1, mid_readonly()) {
                            Some(j3) => match spec_parse_bool(f, j3) {
                                Some(pb) => match spec_expect(f, pb.1, tail3()) {
                                    Some(e) => if e == f.len() {
                                        Some(
                                            MsgV::MountRequest {
                                                shared_dir: SharedDirV {
                                                    dir_type: t,
                                                    app_name: pa.0,
                                                    source: ps.0,
                                                    tag: pt.0,
                                                    readonly: pb.0,
                                                },
                                            },
                                        )
                                    } else {
                                        None
                                    },
                                    None => None,
                                },
                                None => None,
                            },
                            None => None,
                        },
                        None => None,
                    },
                    None => None,
                },
                None => None,
            },
            None => None,
        },
        None => None,
    }
}

/// The rest of a `MountRequest` frame after its fixed prefix: one of the
/// three directory kinds, then the descriptor's fields.
pub open spec fn dec_mount(f: Seq<char>, i: int) -> Option<MsgV> {
    if spec_expect(f, i, dir_lit(QemuSharedDirType::FlatpakSystemDir)) is Some {
        dec_mount_rest(
            f,
            spec_expect(f, i, dir_lit(QemuSharedDirType::FlatpakSystemDir))->0,
            QemuSharedDirType::FlatpakSystemDir,
        )
    } else if spec_expect(f, i, dir_lit(QemuSharedDirType::FlatpakUserDir)) is Some {
        dec_mount_rest(
            f,
            spec_expect(f, i, dir_lit(QemuSharedDirType::FlatpakUserDir))->0,
            QemuSharedDirType::FlatpakUserDir,
        )
    } else if spec_expect(f, i, dir_lit(QemuSharedDirType::FlatpakAppDir)) is Some {
        dec_mount_rest(
            f,
            spec_expect(f, i, dir_lit(QemuSharedDirType::FlatpakAppDir))->0,
            QemuSharedDirType::FlatpakAppDir,
        )
    } else {
        None
    }
}

/// The rest of a `RunRequest` frame after its fixed prefix.
pub open spec fn dec_run(f: Seq<char>, i: int) -> Option<MsgV> {
    match spec_parse_string(f, i) {
        Some(pa) => match spec_expect(f, pa.1, mid_user()) {
            Some(j1) => match spec_parse_bool(f, j1) {
                Some(pu) => match spec_expect(f, pu.1, mid_dbus()) {
                    Some(j2) => match spec_parse_bool(f, j2) {
                        Some(pd) => match spec_expect(f, pd.1, tail2()) {
                            Some(e) => if e == f.len() {
                                Some(
                                    MsgV::RunRequest {
                                        app: pa.0,
                                        user: pu.0,
                                        dbus_session: pd.0,
                                    },
                                )
                            } else {
                                None
                            },
                            None => None,
                        },
                        None => None,
                    },
                    None => None,
                },
                None => None,
            },
            None => None,
        },
        None => None,
    }
}

/// The rest of an `AppExitCode` frame after its fixed prefix.
pub open spec fn dec_exit(f: Seq<char>, i: int) -> Option<MsgV> {
    match spec_parse_int(f, i) {
        Some(p) => match spec_expect(f, p.1, tail2()) {
            Some(e) => if e == f.len() {
                Some(MsgV::AppExitCode { code: p.0 })
            } else {
                None
            },
            None => None,
        },
        None => None,
    }
}

/// The rest of a `ClipboardEvent` frame after its fixed prefix.
pub open spec fn dec_clip(f: Seq<char>, i: int) -> Option<MsgV> {
    match spec_parse_string(f, i) {
        Some(p) => match spec_expect(f, p.1, tail2()) {
            Some(e) => if e == f.len() {
                Some(MsgV::ClipboardEvent { data: p.0 })
            } else {
                None
            },
            None => None,
        },
        None => None,
    }
}

/// The rest of a `DbusNotification` frame after its fixed prefix.
pub open spec fn dec_dbus(f: Seq<char>, i: int) -> Option<MsgV> {
    match spec_parse_string(f, i) {
        Some(p1) => match spec_expect(f, p1.1, mid_body()) {
            Some(j) => match spec_parse_string(f, j) {
                Some(p2) => match spec_expect(f, p2.1, tail2()) {
                    Some(e) => if e == f.len() {
                        Some(MsgV::DbusNotification { summary: p1.0, body: p2.0 })
                    } else {
                        None
                    },
                    None => None,
                },
                None => None,
            },
            None => None,
        },
        None => None,
    }
}

/// What a non-empty frame's text decodes to, if anything: the frames are
/// discriminated by their fixed prefixes, and anything that does not match
/// one of them exactly decodes to nothing. No frame text decodes to the
/// local `Closed` sentinel.
pub open spec fn spec_decode(f: Seq<char>) -> Option<MsgV> {
    if spec_expect(f, 0, pre_ready()) is Some {
        dec_ready(f, spec_expect(f, 0, pre_ready())->0)
    } else if spec_expect(f, 0, pre_ack()) is Some {
        dec_ack(f, spec_expect(f, 0, pre_ack())->0)
    } else if spec_expect(f, 0, pre_mount()) is Some {
        dec_mount(f, spec_expect(f, 0, pre_mount())->0)
    } else if spec_expect(f, 0, pre_run()) is Some {
        dec_run(f, spec_expect(f, 0, pre_run())->0)
    } else if spec_expect(f, 0, pre_exit()) is Some {
        dec_exit(f, spec_expect(f, 0, pre_exit())->0)
    } else if spec_expect(f, 0, pre_clip()) is Some {
        dec_clip(f, spec_expect(f, 0, pre_clip())->0)
    } else if spec_expect(f, 0, pre_dbus()) is Some {
        dec_dbus(f, spec_expect(f, 0, pre_dbus())->0)
    } else {
        None
    }
}

/// One read of the transport, as the decoder sees it: a zero-length read is
/// the peer's close, a frame that decodes is that message, and anything
/// else is a protocol error. A newline terminator on the line is ignored.
pub open spec fn strip_newline(s: Seq<char>) -> Seq<char> {
    if s.len() > 0 && s[s.len() - 1] == '\n' {
        s.drop_last()
    } else {
        s
    }
}

/// The meaning of one line handed back by a blocking read.
pub open spec fn spec_decode_frame(line: Seq<char>) -> Result<MsgV, AgentError> {
    if line.len() == 0 {
        Ok(MsgV::Closed)
    } else {
        match spec_decode(strip_newline(line)) {
            Some(m) => Ok(m),
            None => Err(AgentError::ProtocolError),
        }
    }
}

// ---------------------------------------------------------------------------
// Decoder, executable
// ---------------------------------------------------------------------------
/// Matches a literal at a position of the frame.
fn expect_lit_at(f: &Vec<char>, i: usize, lit: &str) -> (r: Option<usize>)
    ensures
        r is Some <==> spec_expect(f@, i as int, lit@) is Some,
        r is Some ==> r->0 == spec_expect(f@, i as int, lit@)->0,
{
    let n = lit.unicode_len();
    let flen = f.len();
    if i > flen || n > flen - i {
        return None;
    }
    let mut j: usize = 0;
    while j < n
        invariant
            n == lit@.len(),
            j <= n,
            flen == f@.len(),
            i + n <= flen,
            forall|k: int| 0 <= k < j ==> f@[i + k] == lit@[k],
        decreases n - j,
    {
        let c = lit.get_char(j);
        if f[i + j] != c {
            proof {
                if spec_expect(f@, i as int, lit@) is Some {
                    assert(f@.subrange(i as int, i + lit@.len())[j as int] == lit@[j as int]);
                }
            }
            return None;
        }
        j = j + 1;
    }
    proof {
        assert(f@.subrange(i as int, i + lit@.len()) =~= lit@);
    }
    Some(i + n)
}

/// Reads a quoted string's characters up to and including the closing
/// quote, undoing the escaping.
fn parse_string_at(f: &Vec<char>, i: usize) -> (r: Option<(Vec<char>, usize)>)
    ensures
        (match spec_parse_string(f@, i as int) {
            Some(p) => r is Some && (r->0).0@ == p.0 && (r->0).1 == p.1,
            None => r is None,
        }),
    decreases f@.len() - i,
{
    if i >= f.len() {
        return None;
    }
    let c = f[i];
    if c == '"' {
        Some((Vec::new(), i + 1))
    } else if c == '\\' {
        if i + 1 < f.len() {
            let code = f[i + 1];
            let unescaped: Option<char> = if code == '\\' {
                Some('\\')
            } else if code == '"' {
                Some('"')
            } else if code == 'n' {
                Some('\n')
            } else {
                None
            };
            match unescaped {
                Some(ch) => match parse_string_at(f, i + 2) {
                    Some(p) => {
                        let (mut s, e) = p;
                        let ghost tail = s@;
                        s.insert(0, ch);
                        proof {
                            assert(s@ =~= seq![ch] + tail);
                        }
                        Some((s, e))
                    },
                    None => None,
                },
                None => None,
            }
        } else {
            None
        }
    } else {
        match parse_string_at(f, i + 1) {
            Some(p) => {
                let (mut s, e) = p;
                let ghost tail = s@;
                s.insert(0, c);
                proof {
                    assert(s@ =~= seq![c] + tail);
                }
                Some((s, e))
            },
            None => None,
        }
    }
}

/// Reads a run of digits into a bounded accumulator.
fn scan_digits_at(f: &Vec<char>, i: usize, acc: u64) -> (r: Option<(u64, usize)>)
    requires
        acc <= 2147483648,
    ensures
        (match scan_digits(f@, i as int, acc as int) {
            Some(p) => r is Some && (r->0).0 as int == p.0 && (r->0).1 == p.1 && (r->0).0
                <= 2147483648,
            None => r is None,
        }),
    decreases f@.len() - i,
{
    if i < f.len() {
        let c = f[i];
        let cv = c as u32;
        if 48 <= cv && cv <= 57 {
            let a2: u64 = acc * 10 + ((cv - 48) as u64);
            if a2 <= 2147483648 {
                return scan_digits_at(f, i + 1, a2);
            } else {
                return None;
            }
        }
    }
    Some((acc, i))
}

/// Reads a signed decimal number in the 32-bit signed range.
fn parse_int_at(f: &Vec<char>, i: usize) -> (r: Option<(i32, usize)>)
    ensures
        (match spec_parse_int(f@, i as int) {
            Some(p) => r is Some && (r->0).0 as int == p.0 && (r->0).1 == p.1,
            None => r is None,
        }),
{
    if i >= f.len() {
        return None;
    }
    let c = f[i];
    if c == '-' {
        if i + 1 >= f.len() {
            return None;
        }
        let cv = f[i + 1] as u32;
        if !(48 <= cv && cv <= 57) {
            return None;
        }
        match scan_digits_at(f, i + 1, 0) {
            Some(p) => {
                let (v, e) = p;
                if 1 <= v && v <= 2147483648 {
                    let wide: i64 = -(v as i64);
                    Some((wide as i32, e))
                } else {
                    None
                }
            },
            None => None,
        }
    } else {
        let cv = c as u32;
        if !(48 <= cv && cv <= 57) {
            return None;
        }
        match scan_digits_at(f, i, 0) {
            Some(p) => {
                let (v, e) = p;
                if v <= 2147483647 {
                    Some((v as i32, e))
                } else {
                    None
                }
            },
            None => None,
        }
    }
}

/// Reads a boolean literal.
fn parse_bool_at(f: &Vec<char>, i: usize) -> (r: Option<(bool, usize)>)
    ensures
        (match spec_parse_bool(f@, i as int) {
            Some(p) => r is Some && (r->0).0 == p.0 && (r->0).1 == p.1,
            None => r is None,
        }),
{
    match expect_lit_at(f, i, "true") {
        Some(e) => Some((true, e)),
        None => match expect_lit_at(f, i, "false") {
            Some(e) => Some((false, e)),
            None => None,
        },
    }
}

/// The rest of a `Ready` frame after its fixed prefix.
fn parse_ready_at(f: &Vec<char>, i: usize) -> (r: Option<AgentMessage>)
    ensures
        (match dec_ready(f@, i as int) {
            Some(m) => r is Some && r->0@ == m,
            None => r is None,
        }),
{
    match parse_string_at(f, i) {
        Some(p) => {
            let (v, j) = p;
            match expect_lit_at(f, j, "}}") {
                Some(e) => if e == f.len() {
                    Some(AgentMessage::AgentReady(AgentReady { version: chars_to_string(&v) }))
                } else {
                    None
                },
                None => None,
            }
        },
        None => None,
    }
}

/// The rest of an `Ack` frame after its fixed prefix.
fn parse_ack_at(f: &Vec<char>, i: usize) -> (r: Option<AgentMessage>)
    ensures
        (match dec_ack(f@, i as int) {
            Some(m) => r is Some && r->0@ == m,
            None => r is None,
        }),
{
    match parse_int_at(f, i) {
        Some(p) => {
            let (v, j) = p;
            match expect_lit_at(f, j, "}}") {
                Some(e) => if e == f.len() {
                    Some(AgentMessage::AgentAck(AgentAck { status: v }))
                } else {
                    None
                },
                None => None,
            }
        },
        None => None,
    }
}

/// The descriptor fields of a `MountRequest` frame after its directory
/// kind.
fn parse_mount_rest_at(f: &Vec<char>, i: usize, t: QemuSharedDirType) -> (r: Option<AgentMessage>)
    ensures
        (match dec_mount_rest(f@, i as int, t) {
            Some(m) => r is Some && r->0@ == m,
            None => r is None,
        }),
{
    let pa = match parse_string_at(f, i) {
        Some(p) => p,
        None => {
            return None;
        },
    };
    let j1 = match expect_lit_at(f, pa.1, ",\"source\":\"") {
        Some(j) => j,
        None => {
            return None;
        },
    };
    let ps = match parse_string_at(f, j1) {
        Some(p) => p,
        None => {
            return None;
        },
    };
    let j2 = match expect_lit_at(f, ps.1, ",\"tag\":\"") {
        Some(j) => j,
        None => {
            return None;
        },
    };
    let pt = match parse_string_at(f, j2) {
        Some(p) => p,
        None => {
            return None;
        },
    };
    let j3 = match expect_lit_at(f, pt.1, ",\"readonly\":") {
        Some(j) => j,
        None => {
            return None;
        },
    };
    let pb = match parse_bool_at(f, j3) {
        Some(p) => p,
        None => {
            return None;
        },
    };
    let e = match expect_lit_at(f, pb.1, "}}}") {
        Some(e) => e,
        None => {
            return None;
        },
    };
    if e == f.len() {
        Some(
            AgentMessage::AgentMountRequest(
                AgentMountRequest {
                    shared_dir: QemuSharedDir {
                        dir_type: t,
                        app_name: chars_to_string(&pa.0),
                        source: chars_to_string(&ps.0),
                        tag: chars_to_string(&pt.0),
                        readonly: pb.0,
                    },
                },
            ),
        )
    } else {
        None
    }
}

/// The rest of a `MountRequest` frame after its fixed prefix.
fn parse_mount_at(f: &Vec<char>, i: usize) -> (r: Option<AgentMessage>)
    ensures
        (match dec_mount(f@, i as int) {
            Some(m) => r is Some && r->0@ == m,
            None => r is None,
        }),
{
    match expect_lit_at(f, i, "FlatpakSystemDir\",\"app_name\":\"") {
        Some(j) => parse_mount_rest_at(f, j, QemuSharedDirType::FlatpakSystemDir),
        None => match expect_lit_at(f, i, "FlatpakUserDir\",\"app_name\":\"") {
            Some(j) => parse_mount_rest_at(f, j, QemuSharedDirType::FlatpakUserDir),
            None => match expect_lit_at(f, i, "FlatpakAppDir\",\"app_name\":\"") {
                Some(j) => parse_mount_rest_at(f, j, QemuSharedDirType::FlatpakAppDir),
                None => None,
            },
        },
    }
}

/// The rest of a `RunRequest` frame after its fixed prefix.
fn parse_run_at(f: &Vec<char>, i: usize) -> (r: Option<AgentMessage>)
    ensures
        (match dec_run(f@, i as int) {
            Some(m) => r is Some && r->0@ == m,
            None => r is None,
        }),
{
    let pa = match parse_string_at(f, i) {
        Some(p) => p,
        None => {
            return None;
        },
    };
    let j1 = match expect_lit_at(f, pa.1, ",\"user\":") {
        Some(j) => j,
        None => {
            return None;
        },
    };
    let pu = match parse_bool_at(f, j1) {
        Some(p) => p,
        None => {
            return None;
        },
    };
    let j2 = match expect_lit_at(f, pu.1, ",\"dbus_session\":") {
        Some(j) => j,
        None => {
            return None;
        },
    };
    let pd = match parse_bool_at(f, j2) {
        Some(p) => p,
        None => {
            return None;
        },
    };
    let e = match expect_lit_at(f, pd.1, "}}") {
        Some(e) => e,
        None => {
            return None;
        },
    };
    if e == f.len() {
        Some(
            AgentMessage::AgentRunRequest(
                AgentRunRequest {
                    app: chars_to_string(&pa.0),
                    user: pu.0,
                    dbus_session: pd.0,
                },
            ),
        )
    } else {
        None
    }
}

/// The rest of an `AppExitCode` frame after its fixed prefix.
fn parse_exit_at(f: &Vec<char>, i: usize) -> (r: Option<AgentMessage>)
    ensures
        (match dec_exit(f@, i as int) {
            Some(m) => r is Some && r->0@ == m,
            None => r is None,
        }),
{
    match parse_int_at(f, i) {
        Some(p) => {
            let (v, j) = p;
            match expect_lit_at(f, j, "}}") {
                Some(e) => if e == f.len() {
                    Some(AgentMessage::AgentAppExitCode(AgentAppExitCode { code: v }))
                } else {
                    None
                },
                None => None,
            }
        },
        None => None,
    }
}

/// The rest of a `ClipboardEvent` frame after its fixed prefix.
fn parse_clip_at(f: &Vec<char>, i: usize) -> (r: Option<AgentMessage>)
    ensures
        (match dec_clip(f@, i as int) {
            Some(m) => r is Some && r->0@ == m,
            None => r is None,
        }),
{
    match parse_string_at(f, i) {
        Some(p) => {
            let (v, j) = p;
            match expect_lit_at(f, j, "}}") {
                Some(e) => if e == f.len() {
                    Some(AgentMessage::ClipboardEvent(ClipboardEvent { data: chars_to_string(&v) }))
                } else {
                    None
                },
                None => None,
            }
        },
        None => None,
    }
}

/// The rest of a `DbusNotification` frame after its fixed prefix.
fn parse_dbus_at(f: &Vec<char>, i: usize) -> (r: Option<AgentMessage>)
    ensures
        (match dec_dbus(f@, i as int) {
            Some(m) => r is Some && r->0@ == m,
            None => r is None,
        }),
{
    let p1 = match parse_string_at(f, i) {
        Some(p) => p,
        None => {
            return None;
        },
    };
    let j = match expect_lit_at(f, p1.1, ",\"body\":\"") {
        Some(j) => j,
        None => {
            return None;
        },
    };
    let p2 = match parse_string_at(f, j) {
        Some(p) => p,
        None => {
            return None;
        },
    };
    let e = match expect_lit_at(f, p2.1, "}}") {
        Some(e) => e,
        None => {
            return None;
        },
    };
    if e == f.len() {
        Some(
            AgentMessage::DbusNotification(
                DbusNotification {
                    summary: chars_to_string(&p1.0),
                    body: chars_to_string(&p2.0),
                },
            ),
        )
    } else {
        None
    }
}

/// Deserializes one frame's characters, newline terminator already
/// removed.
fn decode_message(f: &Vec<char>) -> (r: Option<AgentMessage>)
    ensures
        (match spec_decode(f@) {
            Some(m) => r is Some && r->0@ == m,
            None => r is None,
        }),
{
    match expect_lit_at(f, 0, "{\"AgentReady\":{\"version\":\"") {
        Some(j) => parse_ready_at(f, j),
        None => match expect_lit_at(f, 0, "{\"AgentAck\":{\"status\":") {
            Some(j) => parse_ack_at(f, j),
            None => match expect_lit_at(f, 0, "{\"AgentMountRequest\":{\"shared_dir\":{\"dir_type\":\"") {
                Some(j) => parse_mount_at(f, j),
                None => match expect_lit_at(f, 0, "{\"AgentRunRequest\":{\"app\":\"") {
                    Some(j) => parse_run_at(f, j),
                    None => match expect_lit_at(f, 0, "{\"AgentAppExitCode\":{\"code\":") {
                        Some(j) => parse_exit_at(f, j),
                        None => match expect_lit_at(f, 0, "{\"ClipboardEvent\":{\"data\":\"") {
                            Some(j) => parse_clip_at(f, j),
                            None => match expect_lit_at(f, 0, "{\"DbusNotification\":{\"summary\":\"") {
                                Some(j) => parse_dbus_at(f, j),
                                None => None,
                            },
                        },
                    },
                },
            },
        },
    }
}

/// Deserializes one line handed back by a blocking read: the empty line
/// (a zero-length read, the peer's close) is the `Closed` sentinel; a
/// frame in the canonical form is its message; anything else is a
/// protocol error.
pub fn decode_frame(line: &str) -> (r: Result<AgentMessage, AgentError>)
    ensures
        (match spec_decode_frame(line@) {
            Ok(m) => r is Ok && r->Ok_0@ == m,
            Err(e) => r is Err && r->Err_0 == e,
        }),
{
    let n = line.unicode_len();
    if n == 0 {
        return Ok(AgentMessage::AgentClosed);
    }
    let mut v = str_to_chars(line);
    let last = v[n - 1];
    if last == '\n' {
        let _dropped = v.pop();
        proof {
            assert(v@ =~= strip_newline(line@));
        }
    }
    proof {
        assert(v@ =~= strip_newline(line@));
    }
    match decode_message(&v) {
        Some(m) => Ok(m),
        None => Err(AgentError::ProtocolError),
    }
}

// ---------------------------------------------------------------------------
// Round trip: decoding inverts encoding
// ---------------------------------------------------------------------------
/// Ten raised to a digit count.
pub open spec fn pow10(k: nat) -> int
    decreases k,
{
    if k == 0 {
        1
    } else {
        10 * pow10((k - 1) as nat)
    }
}

proof fn lemma_pow10_pos(k: nat)
    ensures
        pow10(k) >= 1,
    decreases k,
{
    if k > 0 {
        lemma_pow10_pos((k - 1) as nat);
    }
}

/// Each digit character scans back to its value.
proof fn lemma_digit_char(d: int)
    requires
        0 <= d <= 9,
    ensures
        is_digit(digit_char(d)),
        digit_val(digit_char(d)) == d,
        digit_char(d) != '-',
{
}

/// A number's decimal form is digits throughout.
proof fn lemma_dec_digits_digits(n: int)
    requires
        0 <= n,
    ensures
        dec_digits(n).len() >= 1,
        forall|j: int| 0 <= j < dec_digits(n).len() ==> is_digit(#[trigger] dec_digits(n)[j]),
    decreases n,
{
    if n <= 9 {
        lemma_digit_char(n);
    } else {
        lemma_dec_digits_digits(n / 10);
        lemma_digit_char(n % 10);
        assert forall|j: int| 0 <= j < dec_digits(n).len() implies is_digit(
            #[trigger] dec_digits(n)[j],
        ) by {
            if j < dec_digits(n / 10).len() {
                assert(dec_digits(n)[j] == dec_digits(n / 10)[j]);
            } else {
                assert(dec_digits(n)[j] == digit_char(n % 10));
            }
        }
    }
}

/// Scanning a number's decimal form folds the number into the accumulator.
proof fn lemma_scan_over_digits(f: Seq<char>, i: int, acc: int, n: int)
    requires
        0 <= i,
        0 <= n,
        0 <= acc,
        i + dec_digits(n).len() <= f.len(),
        f.subrange(i, i + dec_digits(n).len() as int) == dec_digits(n),
        acc * pow10(dec_digits(n).len() as nat) + n <= 2147483648,
    ensures
        scan_digits(f, i, acc) == scan_digits(
            f,
            i + dec_digits(n).len() as int,
            acc * pow10(dec_digits(n).len() as nat) + n,
        ),
    decreases n,
{
    if n <= 9 {
        lemma_digit_char(n);
        assert(f[i] == dec_digits(n)[0]);
        assert(pow10(0) == 1);
        assert(pow10(1) == 10);
        assert(scan_digits(f, i, acc) == scan_digits(f, i + 1, acc * 10 + n));
    } else {
        let m = n / 10;
        let d = n % 10;
        let k1 = dec_digits(m).len() as int;
        let k = dec_digits(n).len() as int;
        assert(dec_digits(n) == dec_digits(m) + seq![digit_char(d)]);
        assert(k == k1 + 1);
        assert(f.subrange(i, i + k1) =~= dec_digits(m)) by {
            assert forall|j: int| 0 <= j < k1 implies f.subrange(i, i + k1)[j] == dec_digits(m)[j] by {
                assert(f[i + j] == f.subrange(i, i + k)[j]);
                assert(dec_digits(n)[j] == dec_digits(m)[j]);
            }
        }
        assert(f[i + k1] == dec_digits(n)[k1]);
        assert(dec_digits(n)[k1] == digit_char(d));
        lemma_digit_char(d);
        lemma_pow10_pos(k1 as nat);
        let a1 = acc * pow10(k1 as nat) + m;
        let a = acc * pow10(k as nat) + n;
        assert(pow10(k as nat) == 10 * pow10(k1 as nat));
        assert(acc * pow10(k as nat) == (acc * pow10(k1 as nat)) * 10) by (nonlinear_arith)
            requires
                pow10(k as nat) == 10 * pow10(k1 as nat),
        ;
        assert(n == 10 * m + d);
        assert(a == a1 * 10 + d);
        assert(acc * pow10(k1 as nat) >= 0) by (nonlinear_arith)
            requires
                acc >= 0,
                pow10(k1 as nat) >= 1,
        ;
        assert(a1 >= 0);
        assert(a1 <= a1 * 10 + d) by (nonlinear_arith)
            requires
                a1 >= 0,
                d >= 0,
        ;
        assert(a1 <= 2147483648);
        lemma_scan_over_digits(f, i, acc, m);
        assert(scan_digits(f, i, acc) == scan_digits(f, i + k1, a1));
        assert(is_digit(f[i + k1]));
        assert(digit_val(f[i + k1]) == d);
        assert(scan_digits(f, i + k1, a1) == scan_digits(f, i + k1 + 1, a1 * 10 + d));
        assert(scan_digits(f, i, acc) == scan_digits(f, i + k, a));
    }
}

/// A signed number's decimal form, followed by anything that is not a
/// digit, parses back to the number.
proof fn lemma_parse_int_encoded(f: Seq<char>, i: int, n: int)
    requires
        -2147483648 <= n <= 2147483647,
        0 <= i,
        i + int_digits(n).len() < f.len(),
        f.subrange(i, i + int_digits(n).len() as int) == int_digits(n),
        !is_digit(f[i + int_digits(n).len()]),
    ensures
        spec_parse_int(f, i) == Some((n, i + int_digits(n).len() as int)),
{
    if n >= 0 {
        let k = dec_digits(n).len() as int;
        assert(int_digits(n) == dec_digits(n));
        lemma_dec_digits_digits(n);
        assert(f[i] == dec_digits(n)[0]);
        assert(is_digit(f[i]));
        assert(f[i] != '-') by {
            assert(is_digit(f[i]));
            assert('-' as u32 == 45);
        }
        lemma_pow10_pos(k as nat);
        assert(0 * pow10(k as nat) == 0) by (nonlinear_arith);
        lemma_scan_over_digits(f, i, 0, n);
        assert(scan_digits(f, i, 0) == scan_digits(f, i + k, n));
        assert(scan_digits(f, i + k, n) == Some((n, i + k)));
    } else {
        let m = -n;
        let k = dec_digits(m).len() as int;
        assert(int_digits(n) == seq!['-'] + dec_digits(m));
        assert(f[i] == int_digits(n)[0]);
        assert(f[i] == '-');
        lemma_dec_digits_digits(m);
        assert(f.subrange(i + 1, i + 1 + k) =~= dec_digits(m)) by {
            assert forall|j: int| 0 <= j < k implies f.subrange(i + 1, i + 1 + k)[j] == dec_digits(
                m,
            )[j] by {
                assert(f[i + 1 + j] == f.subrange(i, i + int_digits(n).len() as int)[1 + j]);
                assert(int_digits(n)[1 + j] == dec_digits(m)[j]);
            }
        }
        assert(f[i + 1] == dec_digits(m)[0]);
        assert(is_digit(f[i + 1]));
        lemma_pow10_pos(k as nat);
        assert(0 * pow10(k as nat) == 0) by (nonlinear_arith);
        lemma_scan_over_digits(f, i + 1, 0, m);
        assert(!is_digit(f[i + 1 + k]));
        assert(scan_digits(f, i + 1, 0) == Some((m, i + 1 + k)));
        assert(1 <= m <= 2147483648);
        assert(spec_parse_int(f, i) == Some((n, i + 1 + k)));
    }
}

/// A payload string's escaped form, up to its closing quote, parses back to
/// the payload.
proof fn lemma_parse_string_encoded(f: Seq<char>, i: int, s: Seq<char>)
    requires
        0 <= i,
        i + escape(s).len() + 1 <= f.len(),
        f.subrange(i, i + escape(s).len() as int) == escape(s),
        f[i + escape(s).len()] == '"',
    ensures
        spec_parse_string(f, i) == Some((s, i + escape(s).len() + 1)),
    decreases s.len(),
{
    if s.len() == 0 {
        assert(f[i] == '"');
    } else {
        let c = s[0];
        let s1 = s.drop_first();
        let ec = escape_char(c);
        let e1 = escape(s1);
        assert(escape(s) == ec + e1);
        let el = ec.len() as int;
        assert(f.subrange(i + el, i + el + e1.len() as int) =~= e1) by {
            assert forall|j: int| 0 <= j < e1.len() implies f.subrange(
                i + el,
                i + el + e1.len() as int,
            )[j] == e1[j] by {
                assert(f[i + el + j] == f.subrange(i, i + escape(s).len() as int)[el + j]);
                assert(escape(s)[el + j] == e1[j]);
            }
        }
        assert(f[i + el + e1.len()] == '"');
        lemma_parse_string_encoded(f, i + el, s1);
        assert(seq![c] + s1 =~= s);
        if c == '\\' || c == '"' || c == '\n' {
            assert(ec == seq!['\\', (if c == '\\' { '\\' } else if c == '"' { '"' } else { 'n' })]);
            assert(f[i] == escape(s)[0]);
            assert(f[i] == '\\');
            assert(f[i + 1] == escape(s)[1]);
            assert(unescape_code(f[i + 1]) == Some(c));
            assert(i + 1 < f.len());
            assert(spec_parse_string(f, i) == Some((s, i + escape(s).len() + 1)));
        } else {
            assert(ec == seq![c]);
            assert(f[i] == escape(s)[0]);
            assert(f[i] == c);
            assert(f[i] != '"' && f[i] != '\\');
            assert(spec_parse_string(f, i) == Some((s, i + escape(s).len() + 1)));
        }
    }
}

/// A literal that differs somewhere from what the frame carries at this
/// position does not match there.
proof fn lemma_expect_mismatch(f: Seq<char>, i: int, lita: Seq<char>, litb: Seq<char>, j: int)
    requires
        spec_expect(f, i, lita) is Some,
        0 <= j < lita.len(),
        j < litb.len(),
        lita[j] != litb[j],
    ensures
        spec_expect(f, i, litb) is None,
{
    assert(f[i + j] == f.subrange(i, i + lita.len() as int)[j]);
    if i + litb.len() <= f.len() && f.subrange(i, i + litb.len() as int) == litb {
        assert(f[i + j] == f.subrange(i, i + litb.len() as int)[j]);
        assert(false);
    }
}

/// The fixed prefixes of the frame kinds differ where the dispatch needs
/// them to, and the closing braces and boolean literals have the characters
/// the parser relies on.
proof fn lemma_literal_facts()
    ensures
        pre_ready().len() > 8,
        pre_ack().len() > 8,
        pre_mount().len() > 7,
        pre_run().len() > 8,
        pre_exit().len() > 8,
        pre_clip().len() > 2,
        pre_dbus().len() > 2,
        pre_ack()[7] != pre_ready()[7],
        pre_mount()[7] != pre_ready()[7],
        pre_mount()[7] != pre_ack()[7],
        pre_run()[8] != pre_ready()[8],
        pre_run()[7] != pre_ack()[7],
        pre_run()[7] != pre_mount()[7],
        pre_exit()[7] != pre_ready()[7],
        pre_exit()[8] != pre_ack()[8],
        pre_exit()[7] != pre_mount()[7],
        pre_exit()[7] != pre_run()[7],
        pre_clip()[2] != pre_ready()[2],
        pre_clip()[2] != pre_ack()[2],
        pre_clip()[2] != pre_mount()[2],
        pre_clip()[2] != pre_run()[2],
        pre_clip()[2] != pre_exit()[2],
        pre_dbus()[2] != pre_ready()[2],
        pre_dbus()[2] != pre_ack()[2],
        pre_dbus()[2] != pre_mount()[2],
        pre_dbus()[2] != pre_run()[2],
        pre_dbus()[2] != pre_exit()[2],
        pre_dbus()[2] != pre_clip()[2],
        tail2().len() == 2,
        tail2()[0] == '}',
        tail3().len() == 3,
        tail3()[0] == '}',
        !is_digit('}'),
        "true"@.len() == 4,
        "false"@.len() == 5,
        "true"@[0] != "false"@[0],
        dir_lit(QemuSharedDirType::FlatpakSystemDir).len() > 7,
        dir_lit(QemuSharedDirType::FlatpakUserDir).len() > 7,
        dir_lit(QemuSharedDirType::FlatpakAppDir).len() > 7,
        dir_lit(QemuSharedDirType::FlatpakUserDir)[7] != dir_lit(
            QemuSharedDirType::FlatpakSystemDir,
        )[7],
        dir_lit(QemuSharedDirType::FlatpakAppDir)[7] != dir_lit(
            QemuSharedDirType::FlatpakSystemDir,
        )[7],
        dir_lit(QemuSharedDirType::FlatpakAppDir)[7] != dir_lit(
            QemuSharedDirType::FlatpakUserDir,
        )[7],
{
    reveal_strlit("{\"AgentReady\":{\"version\":\"");
    reveal_strlit("{\"AgentAck\":{\"status\":");
    reveal_strlit("{\"AgentMountRequest\":{\"shared_dir\":{\"dir_type\":\"");
    reveal_strlit("{\"AgentRunRequest\":{\"app\":\"");
    reveal_strlit("{\"AgentAppExitCode\":{\"code\":");
    reveal_strlit("{\"ClipboardEvent\":{\"data\":\"");
    reveal_strlit("{\"DbusNotification\":{\"summary\":\"");
    reveal_strlit("}}");
    reveal_strlit("}}}");
    reveal_strlit("true");
    reveal_strlit("false");
    reveal_strlit("FlatpakSystemDir\",\"app_name\":\"");
    reveal_strlit("FlatpakUserDir\",\"app_name\":\"");
    reveal_strlit("FlatpakAppDir\",\"app_name\":\"");
    assert('}' as u32 == 125);
}

/// A boolean literal parses back to its value.
proof fn lemma_parse_bool_encoded(f: Seq<char>, i: int, b: bool)
    requires
        0 <= i,
        i + bool_lit(b).len() <= f.len(),
        f.subrange(i, i + bool_lit(b).len() as int) == bool_lit(b),
    ensures
        spec_parse_bool(f, i) == Some((b, i + bool_lit(b).len() as int)),
{
    lemma_literal_facts();
    if b {
        assert(spec_expect(f, i, "true"@) == Some(i + 4));
    } else {
        assert(spec_expect(f, i, "false"@) == Some(i + 5));
        lemma_expect_mismatch(f, i, "false"@, "true"@, 0);
    }
}

/// A `Ready` frame decodes back to its message.
proof fn lemma_rt_ready(version: Seq<char>)
    ensures
        spec_decode(spec_encode(MsgV::Ready { version })) == Some(MsgV::Ready { version }),
{
    let f = spec_encode(MsgV::Ready { version });
    let pr = pre_ready();
    let es = escape(version);
    let li: int = pr.len() as int;
    assert(f =~= pr + (es + seq!['"']) + tail2());
    lemma_literal_facts();
    assert(f.subrange(0, li) =~= pr);
    assert(spec_expect(f, 0, pr) == Some(li));
    assert(f.subrange(li, li + es.len() as int) =~= es);
    assert(f[li + es.len()] == '"');
    lemma_parse_string_encoded(f, li, version);
    let j: int = li + es.len() + 1;
    assert(f.subrange(j, j + 2) =~= tail2());
    assert(spec_expect(f, j, tail2()) == Some(j + 2));
    assert(j + 2 == f.len());
    assert(dec_ready(f, li) == Some(MsgV::Ready { version }));
}

/// An `Ack` frame decodes back to its message.
proof fn lemma_rt_ack(status: int)
    requires
        -2147483648 <= status <= 2147483647,
    ensures
        spec_decode(spec_encode(MsgV::Ack { status })) == Some(MsgV::Ack { status }),
{
    let f = spec_encode(MsgV::Ack { status });
    let pr = pre_ack();
    let ds = int_digits(status);
    let li: int = pr.len() as int;
    assert(f =~= pr + ds + tail2());
    lemma_literal_facts();
    assert(f.subrange(0, li) =~= pr);
    assert(spec_expect(f, 0, pr) == Some(li));
    lemma_expect_mismatch(f, 0, pr, pre_ready(), 7);
    assert(f.subrange(li, li + ds.len() as int) =~= ds);
    assert(f[li + ds.len()] == tail2()[0]);
    lemma_parse_int_encoded(f, li, status);
    let j: int = li + ds.len() as int;
    assert(f.subrange(j, j + 2) =~= tail2());
    assert(spec_expect(f, j, tail2()) == Some(j + 2));
    assert(j + 2 == f.len());
    assert(dec_ack(f, li) == Some(MsgV::Ack { status }));
}

/// An `AppExitCode` frame decodes back to its message.
proof fn lemma_rt_exit(code: int)
    requires
        -2147483648 <= code <= 2147483647,
    ensures
        spec_decode(spec_encode(MsgV::AppExitCode { code })) == Some(MsgV::AppExitCode { code }),
{
    let f = spec_encode(MsgV::AppExitCode { code });
    let pr = pre_exit();
    let ds = int_digits(code);
    let li: int = pr.len() as int;
    assert(f =~= pr + ds + tail2());
    lemma_literal_facts();
    assert(f.subrange(0, li) =~= pr);
    assert(spec_expect(f, 0, pr) == Some(li));
    lemma_expect_mismatch(f, 0, pr, pre_ready(), 7);
    lemma_expect_mismatch(f, 0, pr, pre_ack(), 8);
    lemma_expect_mismatch(f, 0, pr, pre_mount(), 7);
    lemma_expect_mismatch(f, 0, pr, pre_run(), 7);
    assert(f.subrange(li, li + ds.len() as int) =~= ds);
    assert(f[li + ds.len()] == tail2()[0]);
    lemma_parse_int_encoded(f, li, code);
    let j: int = li + ds.len() as int;
    assert(f.subrange(j, j + 2) =~= tail2());
    assert(spec_expect(f, j, tail2()) == Some(j + 2));
    assert(j + 2 == f.len());
    assert(dec_exit(f, li) == Some(MsgV::AppExitCode { code }));
}

/// A `ClipboardEvent` frame decodes back to its message.
proof fn lemma_rt_clip(data: Seq<char>)
    ensures
        spec_decode(spec_encode(MsgV::ClipboardEvent { data })) == Some(
            MsgV::ClipboardEvent { data },
        ),
{
    let f = spec_encode(MsgV::ClipboardEvent { data });
    let pr = pre_clip();
    let es = escape(data);
    let li: int = pr.len() as int;
    assert(f =~= pr + (es + seq!['"']) + tail2());
    lemma_literal_facts();
    assert(f.subrange(0, li) =~= pr);
    assert(spec_expect(f, 0, pr) == Some(li));
    lemma_expect_mismatch(f, 0, pr, pre_ready(), 2);
    lemma_expect_mismatch(f, 0, pr, pre_ack(), 2);
    lemma_expect_mismatch(f, 0, pr, pre_mount(), 2);
    lemma_expect_mismatch(f, 0, pr, pre_run(), 2);
    lemma_expect_mismatch(f, 0, pr, pre_exit(), 2);
    assert(f.subrange(li, li + es.len() as int) =~= es);
    assert(f[li + es.len()] == '"');
    lemma_parse_string_encoded(f, li, data);
    let j: int = li + es.len() + 1;
    assert(f.subrange(j, j + 2) =~= tail2());
    assert(spec_expect(f, j, tail2()) == Some(j + 2));
    assert(j + 2 == f.len());
    assert(dec_clip(f, li) == Some(MsgV::ClipboardEvent { data }));
}

/// A `DbusNotification` frame decodes back to its message.
proof fn lemma_rt_dbus(summary: Seq<char>, body: Seq<char>)
    ensures
        spec_decode(spec_encode(MsgV::DbusNotification { summary, body })) == Some(
            MsgV::DbusNotification { summary, body },
        ),
{
    let f = spec_encode(MsgV::DbusNotification { summary, body });
    let pr = pre_dbus();
    let e1 = escape(summary);
    let e2 = escape(body);
    let li: int = pr.len() as int;
    assert(f =~= pr + (e1 + seq!['"']) + mid_body() + (e2 + seq!['"']) + tail2());
    lemma_literal_facts();
    assert(f.subrange(0, li) =~= pr);
    assert(spec_expect(f, 0, pr) == Some(li));
    lemma_expect_mismatch(f, 0, pr, pre_ready(), 2);
    lemma_expect_mismatch(f, 0, pr, pre_ack(), 2);
    lemma_expect_mismatch(f, 0, pr, pre_mount(), 2);
    lemma_expect_mismatch(f, 0, pr, pre_run(), 2);
    lemma_expect_mismatch(f, 0, pr, pre_exit(), 2);
    lemma_expect_mismatch(f, 0, pr, pre_clip(), 2);
    assert(f.subrange(li, li + e1.len() as int) =~= e1);
    assert(f[li + e1.len()] == '"');
    lemma_parse_string_encoded(f, li, summary);
    let j1: int = li + e1.len() + 1;
    let mb: int = mid_body().len() as int;
    assert(f.subrange(j1, j1 + mb) =~= mid_body());
    assert(spec_expect(f, j1, mid_body()) == Some(j1 + mb));
    let j2: int = j1 + mb;
    assert(f.subrange(j2, j2 + e2.len() as int) =~= e2);
    assert(f[j2 + e2.len()] == '"');
    lemma_parse_string_encoded(f, j2, body);
    let j3: int = j2 + e2.len() + 1;
    assert(f.subrange(j3, j3 + 2) =~= tail2());
    assert(spec_expect(f, j3, tail2()) == Some(j3 + 2));
    assert(j3 + 2 == f.len());
    assert(dec_dbus(f, li) == Some(MsgV::DbusNotification { summary, body }));
}

/// A `RunRequest` frame decodes back to its message.
#[verifier::rlimit(100)]
proof fn lemma_rt_run(app: Seq<char>, user: bool, dbus_session: bool)
    ensures
        spec_decode(spec_encode(MsgV::RunRequest { app, user, dbus_session })) == Some(
            MsgV::RunRequest { app, user, dbus_session },
        ),
{
    let f = spec_encode(MsgV::RunRequest { app, user, dbus_session });
    let pr = pre_run();
    let es = escape(app);
    let bu = bool_lit(user);
    let bd = bool_lit(dbus_session);
    let li: int = pr.len() as int;
    assert(f =~= pr + (es + seq!['"']) + mid_user() + bu + mid_dbus() + bd + tail2());
    lemma_literal_facts();
    assert(f.subrange(0, li) =~= pr);
    assert(spec_expect(f, 0, pr) == Some(li));
    lemma_expect_mismatch(f, 0, pr, pre_ready(), 8);
    lemma_expect_mismatch(f, 0, pr, pre_ack(), 7);
    lemma_expect_mismatch(f, 0, pr, pre_mount(), 7);
    assert(f.subrange(li, li + es.len() as int) =~= es);
    assert(f[li + es.len()] == '"');
    lemma_parse_string_encoded(f, li, app);
    let j1: int = li + es.len() + 1;
    let mu: int = mid_user().len() as int;
    assert(f.subrange(j1, j1 + mu) =~= mid_user());
    assert(spec_expect(f, j1, mid_user()) == Some(j1 + mu));
    let j2: int = j1 + mu;
    assert(f.subrange(j2, j2 + bu.len() as int) =~= bu);
    lemma_parse_bool_encoded(f, j2, user);
    let j3: int = j2 + bu.len() as int;
    let md: int = mid_dbus().len() as int;
    assert(f.subrange(j3, j3 + md) =~= mid_dbus());
    assert(spec_expect(f, j3, mid_dbus()) == Some(j3 + md));
    let j4: int = j3 + md;
    assert(f.subrange(j4, j4 + bd.len() as int) =~= bd);
    lemma_parse_bool_encoded(f, j4, dbus_session);
    let j5: int = j4 + bd.len() as int;
    assert(f.subrange(j5, j5 + 2) =~= tail2());
    assert(spec_expect(f, j5, tail2()) == Some(j5 + 2));
    assert(j5 + 2 == f.len());
    assert(dec_run(f, li) == Some(MsgV::RunRequest { app, user, dbus_session }));
}

/// A `MountRequest` frame decodes back to its message.
#[verifier::rlimit(100)]
proof fn lemma_rt_mount(d: SharedDirV)
    ensures
        spec_decode(spec_encode(MsgV::MountRequest { shared_dir: d })) == Some(
            MsgV::MountRequest { shared_dir: d },
        ),
{
    let f = spec_encode(MsgV::MountRequest { shared_dir: d });
    let pr = pre_mount();
    let dl = dir_lit(d.dir_type);
    let e1 = escape(d.app_name);
    let e2 = escape(d.source);
    let e3 = escape(d.tag);
    let br = bool_lit(d.readonly);
    let li: int = pr.len() as int;
    assert(f =~= pr + dl + (e1 + seq!['"']) + mid_source() + (e2 + seq!['"']) + mid_tag() + (e3
        + seq!['"']) + mid_readonly() + br + tail3());
    lemma_literal_facts();
    assert(f.subrange(0, li) =~= pr);
    assert(spec_expect(f, 0, pr) == Some(li));
    lemma_expect_mismatch(f, 0, pr, pre_ready(), 7);
    lemma_expect_mismatch(f, 0, pr, pre_ack(), 7);
    let dlen: int = dl.len() as int;
    assert(f.subrange(li, li + dlen) =~= dl);
    assert(spec_expect(f, li, dl) == Some(li + dlen));
    match d.dir_type {
        QemuSharedDirType::FlatpakSystemDir => {
        },
        QemuSharedDirType::FlatpakUserDir => {
            lemma_expect_mismatch(f, li, dl, dir_lit(QemuSharedDirType::FlatpakSystemDir), 7);
        },
        QemuSharedDirType::FlatpakAppDir => {
            lemma_expect_mismatch(f, li, dl, dir_lit(QemuSharedDirType::FlatpakSystemDir), 7);
            lemma_expect_mismatch(f, li, dl, dir_lit(QemuSharedDirType::FlatpakUserDir), 7);
        },
    }
    let j0: int = li + dlen;
    assert(f.subrange(j0, j0 + e1.len() as int) =~= e1);
    assert(f[j0 + e1.len()] == '"');
    lemma_parse_string_encoded(f, j0, d.app_name);
    let j1: int = j0 + e1.len() + 1;
    let ms: int = mid_source().len() as int;
    assert(f.subrange(j1, j1 + ms) =~= mid_source());
    assert(spec_expect(f, j1, mid_source()) == Some(j1 + ms));
    let j2: int = j1 + ms;
    assert(f.subrange(j2, j2 + e2.len() as int) =~= e2);
    assert(f[j2 + e2.len()] == '"');
    lemma_parse_string_encoded(f, j2, d.source);
    let j3: int = j2 + e2.len() + 1;
    let mt: int = mid_tag().len() as int;
    assert(f.subrange(j3, j3 + mt) =~= mid_tag());
    assert(spec_expect(f, j3, mid_tag()) == Some(j3 + mt));
    let j4: int = j3 + mt;
    assert(f.subrange(j4, j4 + e3.len() as int) =~= e3);
    assert(f[j4 + e3.len()] == '"');
    lemma_parse_string_encoded(f, j4, d.tag);
    let j5: int = j4 + e3.len() + 1;
    let mr: int = mid_readonly().len() as int;
    assert(f.subrange(j5, j5 + mr) =~= mid_readonly());
    assert(spec_expect(f, j5, mid_readonly()) == Some(j5 + mr));
    let j6: int = j5 + mr;
    assert(f.subrange(j6, j6 + br.len() as int) =~= br);
    lemma_parse_bool_encoded(f, j6, d.readonly);
    let j7: int = j6 + br.len() as int;
    assert(f.subrange(j7, j7 + 3) =~= tail3());
    assert(spec_expect(f, j7, tail3()) == Some(j7 + 3));
    assert(j7 + 3 == f.len());
    assert(dec_mount_rest(f, j0, d.dir_type) == Some(MsgV::MountRequest { shared_dir: d }));
    assert(dec_mount(f, li) == Some(MsgV::MountRequest { shared_dir: d }));
}

/// Round-trip fidelity: every message the wire can carry decodes, from its
/// own encoding, back to itself — whatever its payload strings hold,
/// newlines and quotes included.
pub proof fn lemma_round_trip(m: MsgV)
    requires
        msg_wf(m),
    ensures
        spec_decode(spec_encode(m)) == Some(m),
{
    match m {
        MsgV::Ready { version } => lemma_rt_ready(version),
        MsgV::Ack { status } => lemma_rt_ack(status),
        MsgV::MountRequest { shared_dir } => lemma_rt_mount(shared_dir),
        MsgV::RunRequest { app, user, dbus_session } => lemma_rt_run(app, user, dbus_session),
        MsgV::AppExitCode { code } => lemma_rt_exit(code),
        MsgV::Closed => {
            assert(false);
        },
        MsgV::ClipboardEvent { data } => lemma_rt_clip(data),
        MsgV::DbusNotification { summary, body } => lemma_rt_dbus(summary, body),
    }
}

/// No frame text decodes to the local `Closed` sentinel: it is synthesized
/// only for a zero-length read.
pub proof fn lemma_decode_never_closed(f: Seq<char>)
    ensures
        spec_decode(f) != Some(MsgV::Closed),
{
}

// ---------------------------------------------------------------------------
// Frame integrity: no embedded newline
// ---------------------------------------------------------------------------
/// The frame stays on one line: no character of it is a newline.
pub open spec fn line_clean(s: Seq<char>) -> bool {
    forall|i: int| 0 <= i < s.len() ==> s[i] != '\n'
}

proof fn lemma_clean_concat(a: Seq<char>, b: Seq<char>)
    requires
        line_clean(a),
        line_clean(b),
    ensures
        line_clean(a + b),
{
    assert forall|i: int| 0 <= i < (a + b).len() implies (a + b)[i] != '\n' by {
        if i < a.len() {
            assert((a + b)[i] == a[i]);
        } else {
            assert((a + b)[i] == b[i - a.len()]);
        }
    }
}

proof fn lemma_literals_clean()
    ensures
        line_clean(pre_ready()),
        line_clean(pre_ack()),
        line_clean(pre_mount()),
        line_clean(pre_run()),
        line_clean(pre_exit()),
        line_clean(pre_clip()),
        line_clean(pre_dbus()),
        line_clean(dir_lit(QemuSharedDirType::FlatpakSystemDir)),
        line_clean(dir_lit(QemuSharedDirType::FlatpakUserDir)),
        line_clean(dir_lit(QemuSharedDirType::FlatpakAppDir)),
        line_clean(mid_source()),
        line_clean(mid_tag()),
        line_clean(mid_readonly()),
        line_clean(mid_user()),
        line_clean(mid_dbus()),
        line_clean(mid_body()),
        line_clean(tail2()),
        line_clean(tail3()),
        line_clean(bool_lit(true)),
        line_clean(bool_lit(false)),
{
    reveal_strlit("{\"AgentReady\":{\"version\":\"");
    reveal_strlit("{\"AgentAck\":{\"status\":");
    reveal_strlit("{\"AgentMountRequest\":{\"shared_dir\":{\"dir_type\":\"");
    reveal_strlit("{\"AgentRunRequest\":{\"app\":\"");
    reveal_strlit("{\"AgentAppExitCode\":{\"code\":");
    reveal_strlit("{\"ClipboardEvent\":{\"data\":\"");
    reveal_strlit("{\"DbusNotification\":{\"summary\":\"");
    reveal_strlit("FlatpakSystemDir\",\"app_name\":\"");
    reveal_strlit("FlatpakUserDir\",\"app_name\":\"");
    reveal_strlit("FlatpakAppDir\",\"app_name\":\"");
    reveal_strlit(",\"source\":\"");
    reveal_strlit(",\"tag\":\"");
    reveal_strlit(",\"readonly\":");
    reveal_strlit(",\"user\":");
    reveal_strlit(",\"dbus_session\":");
    reveal_strlit(",\"body\":\"");
    reveal_strlit("}}");
    reveal_strlit("}}}");
    reveal_strlit("true");
    reveal_strlit("false");
}

/// Escaping leaves no newline behind: the one newline a payload may hold
/// becomes a two-character escape.
proof fn lemma_escape_clean(s: Seq<char>)
    ensures
        line_clean(escape(s)),
    decreases s.len(),
{
    if s.len() > 0 {
        lemma_escape_clean(s.drop_first());
        lemma_clean_concat(escape_char(s[0]), escape(s.drop_first()));
    }
}

/// A quoted payload, closing quote included, stays on one line.
proof fn lemma_str_close_clean(s: Seq<char>)
    ensures
        line_clean(str_close(s)),
{
    lemma_escape_clean(s);
    lemma_clean_concat(escape(s), seq!['"']);
}

/// Decimal digits stay on one line.
proof fn lemma_int_digits_clean(n: int)
    ensures
        line_clean(int_digits(n)),
{
    let m = if n < 0 { -n } else { n };
    lemma_dec_digits_digits(m);
    assert forall|i: int| 0 <= i < dec_digits(m).len() implies dec_digits(m)[i] != '\n' by {
        assert(is_digit(dec_digits(m)[i]));
        assert('\n' as u32 == 10);
    }
    if n < 0 {
        lemma_clean_concat(seq!['-'], dec_digits(m));
    }
}

/// The codec never emits an embedded newline inside a frame: whatever the
/// payload strings hold, every character of the encoded frame text differs
/// from the newline that delimits frames on the wire.
pub proof fn lemma_encode_line_clean(m: MsgV)
    requires
        msg_wf(m),
    ensures
        line_clean(spec_encode(m)),
{
    lemma_literals_clean();
    match m {
        MsgV::Ready { version } => {
            lemma_str_close_clean(version);
            lemma_clean_concat(pre_ready(), str_close(version));
            lemma_clean_concat(pre_ready() + str_close(version), tail2());
        },
        MsgV::Ack { status } => {
            lemma_int_digits_clean(status);
            lemma_clean_concat(pre_ack(), int_digits(status));
            lemma_clean_concat(pre_ack() + int_digits(status), tail2());
        },
        MsgV::MountRequest { shared_dir } => {
            let d = shared_dir;
            lemma_str_close_clean(d.app_name);
            lemma_str_close_clean(d.source);
            lemma_str_close_clean(d.tag);
            let p1 = pre_mount() + dir_lit(d.dir_type);
            lemma_clean_concat(pre_mount(), dir_lit(d.dir_type));
            let p2 = p1 + str_close(d.app_name);
            lemma_clean_concat(p1, str_close(d.app_name));
            let p3 = p2 + mid_source();
            lemma_clean_concat(p2, mid_source());
            let p4 = p3 + str_close(d.source);
            lemma_clean_concat(p3, str_close(d.source));
            let p5 = p4 + mid_tag();
            lemma_clean_concat(p4, mid_tag());
            let p6 = p5 + str_close(d.tag);
            lemma_clean_concat(p5, str_close(d.tag));
            let p7 = p6 + mid_readonly();
            lemma_clean_concat(p6, mid_readonly());
            let p8 = p7 + bool_lit(d.readonly);
            lemma_clean_concat(p7, bool_lit(d.readonly));
            lemma_clean_concat(p8, tail3());
        },
        MsgV::RunRequest { app, user, dbus_session } => {
            lemma_str_close_clean(app);
            let p1 = pre_run() + str_close(app);
            lemma_clean_concat(pre_run(), str_close(app));
            let p2 = p1 + mid_user();
            lemma_clean_concat(p1, mid_user());
            let p3 = p2 + bool_lit(user);
            lemma_clean_concat(p2, bool_lit(user));
            let p4 = p3 + mid_dbus();
            lemma_clean_concat(p3, mid_dbus());
            let p5 = p4 + bool_lit(dbus_session);
            lemma_clean_concat(p4, bool_lit(dbus_session));
            lemma_clean_concat(p5, tail2());
        },
        MsgV::AppExitCode { code } => {
            lemma_int_digits_clean(code);
            lemma_clean_concat(pre_exit(), int_digits(code));
            lemma_clean_concat(pre_exit() + int_digits(code), tail2());
        },
        MsgV::Closed => {
        },
        MsgV::ClipboardEvent { data } => {
            lemma_str_close_clean(data);
            lemma_clean_concat(pre_clip(), str_close(data));
            lemma_clean_concat(pre_clip() + str_close(data), tail2());
        },
        MsgV::DbusNotification { summary, body } => {
            lemma_str_close_clean(summary);
            lemma_str_close_clean(body);
            let p1 = pre_dbus() + str_close(summary);
            lemma_clean_concat(pre_dbus(), str_close(summary));
            let p2 = p1 + mid_body();
            lemma_clean_concat(p1, mid_body());
            let p3 = p2 + str_close(body);
            lemma_clean_concat(p2, str_close(body));
            lemma_clean_concat(p3, tail2());
        },
    }
}

/// Round-trip fidelity at the wire level: the line put on the wire for a
/// message — newline terminator included or not — reads back as exactly
/// that message, never as the close sentinel or an error.
pub proof fn lemma_wire_round_trip(m: MsgV)
    requires
        msg_wf(m),
    ensures
        spec_decode_frame(spec_encode(m).push('\n')) == Ok::<MsgV, AgentError>(m),
        spec_decode_frame(spec_encode(m)) == Ok::<MsgV, AgentError>(m),
{
    let enc = spec_encode(m);
    lemma_literal_facts();
    assert(enc.len() > 0) by {
        match m {
            MsgV::Ready { version } => assert(enc.len() >= pre_ready().len()),
            MsgV::Ack { status } => assert(enc.len() >= pre_ack().len()),
            MsgV::MountRequest { shared_dir } => assert(enc.len() >= pre_mount().len()),
            MsgV::RunRequest { app, user, dbus_session } => assert(enc.len() >= pre_run().len()),
            MsgV::AppExitCode { code } => assert(enc.len() >= pre_exit().len()),
            MsgV::Closed => assert(false),
            MsgV::ClipboardEvent { data } => assert(enc.len() >= pre_clip().len()),
            MsgV::DbusNotification { summary, body } => assert(enc.len() >= pre_dbus().len()),
        }
    }
    let line = enc.push('\n');
    assert(line[line.len() - 1] == '\n');
    assert(strip_newline(line) =~= enc);
    lemma_encode_line_clean(m);
    assert(enc[enc.len() - 1] != '\n');
    assert(strip_newline(enc) =~= enc);
    lemma_round_trip(m);
}


/// A digit scan that starts from a non-negative accumulator stays
/// non-negative.
proof fn lemma_scan_digits_nonneg(f: Seq<char>, i: int, acc: int)
    requires
        0 <= acc,
    ensures
        scan_digits(f, i, acc) matches Some(p) ==> p.0 >= 0,
    decreases f.len() - i,
{
    if 0 <= i && i < f.len() && is_digit(f[i]) {
        if acc * 10 + digit_val(f[i]) <= 2147483648 {
            lemma_scan_digits_nonneg(f, i + 1, acc * 10 + digit_val(f[i]));
        }
    }
}

/// A parsed number lies in the 32-bit signed range.
proof fn lemma_parse_int_bounds(f: Seq<char>, i: int)
    ensures
        spec_parse_int(f, i) matches Some(p) ==> -2147483648 <= p.0 <= 2147483647,
{
    if 0 <= i && i < f.len() && f[i] == '-' {
    } else if 0 <= i && i < f.len() && is_digit(f[i]) {
        lemma_scan_digits_nonneg(f, i, 0);
    }
}

/// Whatever a frame decodes to is itself fit for the wire: never the local
/// `Closed` sentinel, and with its integer fields in the protocol's 32-bit
/// signed range — so a decoded message can always be encoded again.
pub proof fn lemma_decode_wf(f: Seq<char>)
    ensures
        spec_decode(f) matches Some(m) ==> msg_wf(m),
{
    if spec_expect(f, 0, pre_ack()) is Some {
        let i = spec_expect(f, 0, pre_ack())->0;
        lemma_parse_int_bounds(f, i);
    }
    if spec_expect(f, 0, pre_exit()) is Some {
        let i = spec_expect(f, 0, pre_exit())->0;
        lemma_parse_int_bounds(f, i);
    }
}

} // verus!
