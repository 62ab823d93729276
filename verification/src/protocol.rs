//! The camera's control protocol: the commands sent to a camera, and the reply
//! with which a camera answers a scan.
pub mod version;

use crate::mac::parse_mac;
use crate::mac::MacAddr;
use crate::mac::MacParse;
use crate::number::decimal_bytes;
use crate::number::push_decimal_bytes;
use crate::protocol::version::parse_version;
pub use crate::protocol::version::Version;
use crate::text::split;
use crate::text::split_bytes;
use crate::text::slice_views;
use crate::text::str_from_utf8;
use crate::text::lemma_split_nonempty;
use crate::wire::be16;
use crate::wire::be16_bytes;
use crate::wire::lemma_be16_round_trip;
use crate::wire::read_u16;
use crate::wire::u16_bytes;
use crate::Command;
use vstd::prelude::*;
use vstd::utf8::decode_utf8;
use vstd::utf8::valid_utf8;

verus! {

/// Magic constant that is prepended to each camera frame.
///
/// Represents a big-endian integer representation of `[0x4d, 0x4a]` array.
pub const MAGIC: u16 = 19786;

/// Number of bytes in the client id field of a command or reply.
pub const CID_LEN: usize = 16;

/// Largest number of id bytes that the client id field carries.
pub const CID_MAX: usize = 15;

/// The ASCII digit `0`, which fills the client id field behind a short id
/// and makes up the fixed argument of the commands.
pub const PAD: u8 = 0x30;

/// Number of `0` digits in the fixed argument of the commands.
pub const FIXED_ARGUMENT_LEN: usize = 40;

/// Number of bytes in front of a command's arguments, and in front of the
/// text fields of a scan reply: magic, operation code and client id field.
pub const PREAMBLE_LEN: usize = 20;

/// `n` times the byte `b`.
pub open spec fn repeat(b: u8, n: nat) -> Seq<u8> {
    Seq::new(n, |i: int| b)
}

/// The part of `cid` that a command carries: its first fifteen bytes.
pub open spec fn kept_id(cid: Seq<u8>) -> Seq<u8> {
    if cid.len() > CID_MAX {
        cid.take(CID_MAX as int)
    } else {
        cid
    }
}

/// The client id field of a command: the id, cut to fifteen bytes, filled up
/// to fifteen bytes with the digit `0`, and closed by a nul byte.
pub open spec fn cid_field(cid: Seq<u8>) -> Seq<u8> {
    kept_id(cid) + repeat(PAD, (CID_MAX - kept_id(cid).len()) as nat) + seq![0u8]
}

/// The bytes of a command: magic, operation code, client id field, arguments.
pub open spec fn command(code: u16, cid: Seq<u8>, args: Seq<u8>) -> Seq<u8> {
    be16_bytes(MAGIC) + be16_bytes(code) + cid_field(cid) + args
}

/// The fixed argument that opens the arguments of every command.
pub open spec fn fixed_argument() -> Seq<u8> {
    repeat(PAD, FIXED_ARGUMENT_LEN as nat)
}

/// The arguments of a start command for a stream to `port`: the fixed
/// argument, then the port twice in decimal with a colon between, then a nul
/// byte.
pub open spec fn start_arguments(port: u16) -> Seq<u8> {
    fixed_argument() + decimal_bytes(port as nat) + seq![0x3au8] + decimal_bytes(port as nat)
        + seq![0u8]
}

/// Appends `n` times the byte `b` to `out`.
fn push_repeated(out: &mut Vec<u8>, b: u8, n: usize)
    ensures
        final(out)@ == old(out)@ + repeat(b, n as nat),
{
    let mut i: usize = 0;
    assert(out@ =~= old(out)@ + repeat(b, 0));
    while i < n
        invariant
            i <= n,
            out@ == old(out)@ + repeat(b, i as nat),
        decreases n - i,
    {
        out.push(b);
        assert(out@ =~= old(out)@ + repeat(b, (i + 1) as nat));
        i += 1;
    }
}

/// Builds the bytes of a command.
pub fn create_command(cmd: Command, cid: &[u8], args: &[u8]) -> (out: Vec<u8>)
    ensures
        out@ == command(cmd.code(), cid@, args@),
{
    let mut out: Vec<u8> = Vec::new();
    let magic = u16_bytes(MAGIC);
    out.extend_from_slice(magic.as_slice());
    let code = u16_bytes(cmd.as_u16());
    out.extend_from_slice(code.as_slice());
    let kept = if cid.len() > CID_MAX {
        CID_MAX
    } else {
        cid.len()
    };
    out.extend_from_slice(&cid[0..kept]);
    assert(cid@.subrange(0, kept as int) =~= kept_id(cid@));
    push_repeated(&mut out, PAD, CID_MAX - kept);
    out.push(0);
    out.extend_from_slice(args);
    assert(out@ =~= command(cmd.code(), cid@, args@));
    out
}

/// The command that asks the cameras on the network to announce themselves.
pub fn scan_command() -> (out: Vec<u8>)
    ensures
        out@ == command(Command::Scan.code(), Seq::empty(), fixed_argument()),
{
    let mut args: Vec<u8> = Vec::new();
    push_repeated(&mut args, PAD, FIXED_ARGUMENT_LEN);
    let cid: Vec<u8> = Vec::new();
    assert(args@ =~= fixed_argument());
    create_command(Command::Scan, cid.as_slice(), args.as_slice())
}

/// The command that asks the camera with the id `cid` to stream to `port`,
/// and to expect the reports from there.
pub fn start_command(cid: &[u8], port: u16) -> (out: Vec<u8>)
    ensures
        out@ == command(Command::StartRtp.code(), cid@, start_arguments(port)),
{
    let mut args: Vec<u8> = Vec::new();
    push_repeated(&mut args, PAD, FIXED_ARGUMENT_LEN);
    push_decimal_bytes(&mut args, port);
    args.push(0x3a);
    push_decimal_bytes(&mut args, port);
    args.push(0);
    assert(args@ =~= start_arguments(port));
    create_command(Command::StartRtp, cid, args.as_slice())
}

/// The layout of a command: it is twenty bytes longer than its arguments; it
/// opens with the magic and the operation code; the client id field holds the
/// id, cut to fifteen bytes where it is longer, then the digit `0` up to the
/// fifteenth byte, then a nul byte; the arguments follow unchanged.
pub proof fn lemma_command_layout(code: u16, cid: Seq<u8>, args: Seq<u8>)
    ensures
        command(code, cid, args).len() == 4 + CID_LEN + args.len(),
        command(code, cid, args).subrange(0, 2) == be16_bytes(MAGIC),
        command(code, cid, args).subrange(2, 4) == be16_bytes(code),
        command(code, cid, args).subrange(4, PREAMBLE_LEN as int) == cid_field(cid),
        command(code, cid, args).skip(PREAMBLE_LEN as int) == args,
        cid_field(cid).len() == CID_LEN,
        kept_id(cid).len() <= CID_MAX,
        cid.len() <= CID_MAX ==> kept_id(cid) == cid,
        cid_field(cid).take(kept_id(cid).len() as int) == kept_id(cid),
        forall|i: int| kept_id(cid).len() <= i < CID_MAX ==> cid_field(cid)[i] == PAD,
        cid_field(cid)[CID_MAX as int] == 0,
{
    let c = command(code, cid, args);
    assert(c.subrange(0, 2) =~= be16_bytes(MAGIC));
    assert(c.subrange(2, 4) =~= be16_bytes(code));
    assert(c.subrange(4, PREAMBLE_LEN as int) =~= cid_field(cid));
    assert(c.skip(PREAMBLE_LEN as int) =~= args);
    assert(cid_field(cid).take(kept_id(cid).len() as int) =~= kept_id(cid));
}

/// Why the text fields of a scan reply could not be read.
#[derive(Debug, Clone, Copy, PartialEq, Eq, Structural)]
pub enum FieldError {
    /// The MAC address is not valid UTF-8.
    MacNotUtf8,
    /// The MAC address does not parse.
    MacInvalid,
    /// No nul byte closes the MAC address, so no version follows it.
    MissingVersion,
    /// The version is not valid UTF-8.
    VersionNotUtf8,
    /// The version does not parse.
    VersionInvalid,
}

impl FieldError {
    /// The text that describes this error.
    pub fn message(&self) -> (text: &'static str)
        ensures
            text@ == match self {
                FieldError::MacNotUtf8 => "MAC address contains invalid UTF-8 sequence"@,
                FieldError::MacInvalid => "MAC address is invalid"@,
                FieldError::MissingVersion => "missing version"@,
                FieldError::VersionNotUtf8 => "version contains invalid UTF-8 sequence"@,
                FieldError::VersionInvalid => "version is invalid"@,
            },
    {
        match self {
            FieldError::MacNotUtf8 => "MAC address contains invalid UTF-8 sequence",
            FieldError::MacInvalid => "MAC address is invalid",
            FieldError::MissingVersion => "missing version",
            FieldError::VersionNotUtf8 => "version contains invalid UTF-8 sequence",
            FieldError::VersionInvalid => "version is invalid",
        }
    }
}

/// What a camera says of itself in its reply to a scan.
#[derive(Debug, Clone, Copy)]
pub struct ScanInfo {
    /// Camera MAC address.
    mac: MacAddr,
    /// Firmware version.
    version: Version,
}

/// Mathematical counterpart of [`ScanInfo`].
pub ghost struct ScanInfoView {
    pub mac: Seq<u8>,
    pub version: Seq<u16>,
}

impl View for ScanInfo {
    type V = ScanInfoView;

    closed spec fn view(&self) -> ScanInfoView {
        ScanInfoView { mac: self.mac@, version: self.version@ }
    }
}

/// Reads the text fields of a scan reply. The bytes are split at their nul
/// bytes. The first piece is the MAC address and the second the version; what
/// follows the second is not looked at. The MAC address is judged first.
pub open spec fn parse_scan_info(bytes: Seq<u8>) -> Result<ScanInfoView, FieldError> {
    let fields = split(bytes, 0u8);
    if !valid_utf8(fields[0]) {
        Err(FieldError::MacNotUtf8)
    } else {
        match parse_mac(decode_utf8(fields[0])) {
            MacParse::Address(mac) => {
                if fields.len() < 2 {
                    Err(FieldError::MissingVersion)
                } else if !valid_utf8(fields[1]) {
                    Err(FieldError::VersionNotUtf8)
                } else {
                    match parse_version(decode_utf8(fields[1])) {
                        Some(version) => Ok(ScanInfoView { mac, version }),
                        None => Err(FieldError::VersionInvalid),
                    }
                }
            },
            _ => Err(FieldError::MacInvalid),
        }
    }
}

/// The mathematical counterpart of a result that holds a [`ScanInfo`].
pub open spec fn scan_info_result(r: Result<ScanInfo, FieldError>) -> Result<
    ScanInfoView,
    FieldError,
> {
    match r {
        Ok(info) => Ok(info@),
        Err(e) => Err(e),
    }
}

impl ScanInfo {
    /// Puts a MAC address and a version together.
    pub fn new(mac: MacAddr, version: Version) -> (info: ScanInfo)
        ensures
            info@ == (ScanInfoView { mac: mac@, version: version@ }),
    {
        ScanInfo { mac, version }
    }

    /// Camera MAC address.
    pub fn mac(&self) -> (mac: &MacAddr)
        ensures
            mac@ == self@.mac,
    {
        &self.mac
    }

    /// Firmware version.
    pub fn version(&self) -> (version: &Version)
        ensures
            version@ == self@.version,
    {
        &self.version
    }

    /// Reads the text fields that follow the client id in a scan reply.
    pub fn try_from(v: &[u8]) -> (r: Result<ScanInfo, FieldError>)
        ensures
            scan_info_result(r) == parse_scan_info(v@),
    {
        let fields = split_bytes(v, 0, 2);
        proof {
            lemma_split_nonempty(v@, 0u8);
        }
        assert(slice_views(fields@).len() == fields@.len());
        assert(slice_views(fields@)[0] == fields@[0]@);
        let mac = match str_from_utf8(fields[0]) {
            Ok(text) => match MacAddr::from_str(text) {
                Ok(mac) => mac,
                Err(_) => {
                    return Err(FieldError::MacInvalid);
                },
            },
            Err(_) => {
                return Err(FieldError::MacNotUtf8);
            },
        };
        if fields.len() < 2 {
            return Err(FieldError::MissingVersion);
        }
        assert(slice_views(fields@)[1] == fields@[1]@);
        let version = match str_from_utf8(fields[1]) {
            Ok(text) => match Version::from_str(text) {
                Ok(version) => version,
                Err(_) => {
                    return Err(FieldError::VersionInvalid);
                },
            },
            Err(_) => {
                return Err(FieldError::VersionNotUtf8);
            },
        };
        Ok(ScanInfo { mac, version })
    }
}

/// Why a datagram could not be read as a scan reply.
#[derive(Debug, Clone, Copy, PartialEq, Eq, Structural)]
pub enum ReplyError {
    /// The datagram does not begin with the magic.
    MalformedReply,
    /// The datagram ends before the magic, the operation code or the client
    /// id does.
    TruncatedReply,
    /// One of the text fields could not be read.
    InvalidField(FieldError),
}

/// A decoded scan reply: the client id that the camera assigned, and what the
/// camera says of itself.
#[derive(Debug, Clone, Copy)]
pub struct Reply {
    pub cid: [u8; 16],
    pub info: ScanInfo,
}

/// Mathematical counterpart of [`Reply`].
pub ghost struct ReplyView {
    pub cid: Seq<u8>,
    pub info: ScanInfoView,
}

impl View for Reply {
    type V = ReplyView;

    open spec fn view(&self) -> ReplyView {
        ReplyView { cid: self.cid@, info: self.info@ }
    }
}

/// Reads a datagram as a scan reply.
///
/// The datagram must begin with the magic. A datagram with another operation
/// code than that of a scan reply is no reply and no error. In a reply, the
/// client id field follows, and then the text fields.
pub open spec fn scan_reply(bytes: Seq<u8>) -> Result<Option<ReplyView>, ReplyError> {
    if bytes.len() < 2 {
        Err(ReplyError::TruncatedReply)
    } else if be16(bytes[0], bytes[1]) != MAGIC {
        Err(ReplyError::MalformedReply)
    } else if bytes.len() < 4 {
        Err(ReplyError::TruncatedReply)
    } else if be16(bytes[2], bytes[3]) != Command::ScanReply.code() {
        Ok(None)
    } else if bytes.len() < PREAMBLE_LEN {
        Err(ReplyError::TruncatedReply)
    } else {
        match parse_scan_info(bytes.skip(PREAMBLE_LEN as int)) {
            Ok(info) => Ok(Some(ReplyView { cid: bytes.subrange(4, PREAMBLE_LEN as int), info })),
            Err(e) => Err(ReplyError::InvalidField(e)),
        }
    }
}

/// The mathematical counterpart of a decoder's result.
pub open spec fn reply_result(r: Result<Option<Reply>, ReplyError>) -> Result<
    Option<ReplyView>,
    ReplyError,
> {
    match r {
        Ok(Some(reply)) => Ok(Some(reply@)),
        Ok(None) => Ok(None),
        Err(e) => Err(e),
    }
}

/// Decodes a datagram as a scan reply.
pub fn decode_scan_reply(bytes: &[u8]) -> (r: Result<Option<Reply>, ReplyError>)
    ensures
        reply_result(r) == scan_reply(bytes@),
{
    let n = bytes.len();
    if n < 2 {
        return Err(ReplyError::TruncatedReply);
    }
    if read_u16(bytes) != MAGIC {
        return Err(ReplyError::MalformedReply);
    }
    if n < 4 {
        return Err(ReplyError::TruncatedReply);
    }
    if read_u16(&bytes[2..4]) != Command::ScanReply.as_u16() {
        return Ok(None);
    }
    if n < PREAMBLE_LEN {
        return Err(ReplyError::TruncatedReply);
    }
    let mut cid = [0u8; 16];
    let mut i: usize = 0;
    while i < CID_LEN
        invariant
            i <= CID_LEN,
            n == bytes@.len(),
            n >= PREAMBLE_LEN,
            forall|j: int| 0 <= j < i ==> cid@[j] == bytes@[4 + j],
        decreases CID_LEN - i,
    {
        cid[i] = bytes[4 + i];
        i += 1;
    }
    assert(cid@ =~= bytes@.subrange(4, PREAMBLE_LEN as int));
    assert(bytes@.subrange(PREAMBLE_LEN as int, n as int) =~= bytes@.skip(PREAMBLE_LEN as int));
    match ScanInfo::try_from(&bytes[PREAMBLE_LEN..n]) {
        Ok(info) => Ok(Some(Reply { cid, info })),
        Err(e) => Err(ReplyError::InvalidField(e)),
    }
}

/// A datagram laid out as a command, with the operation code of a scan reply
/// and the text fields as its arguments, decodes as a reply with the client
/// id field of the command and whatever the text fields hold.
pub proof fn lemma_reply_layout(cid: Seq<u8>, fields: Seq<u8>)
    ensures
        scan_reply(command(Command::ScanReply.code(), cid, fields)) == match parse_scan_info(
            fields,
        ) {
            Ok(info) => Ok::<Option<ReplyView>, ReplyError>(
                Some(ReplyView { cid: cid_field(cid), info }),
            ),
            Err(e) => Err(ReplyError::InvalidField(e)),
        },
{
    let code = Command::ScanReply.code();
    let bytes = command(code, cid, fields);
    lemma_command_layout(code, cid, fields);
    lemma_be16_round_trip(MAGIC);
    lemma_be16_round_trip(code);
    assert(bytes[0] == bytes.subrange(0, 2)[0]);
    assert(bytes[1] == bytes.subrange(0, 2)[1]);
    assert(bytes[2] == bytes.subrange(2, 4)[0]);
    assert(bytes[3] == bytes.subrange(2, 4)[1]);
}

/// The address that a datagram came from or goes to, as plain numbers.
#[derive(Debug, Clone, Copy, PartialEq, Eq)]
pub enum Endpoint {
    /// An IPv4 address and a port.
    V4 { octets: [u8; 4], port: u16 },
    /// An IPv6 address, a port, and the flow and scope that go with them.
    V6 { segments: [u16; 8], port: u16, flowinfo: u32, scope_id: u32 },
}

/// A camera that answered a scan.
#[derive(Debug, Clone, Copy)]
pub struct LookupInfo {
    /// Camera endpoint.
    addr: Endpoint,
    /// Camera ID.
    cid: [u8; 16],
    /// Scan info.
    info: ScanInfo,
}

/// Mathematical counterpart of [`LookupInfo`].
pub ghost struct LookupInfoView {
    pub addr: Endpoint,
    pub cid: Seq<u8>,
    pub info: ScanInfoView,
}

impl View for LookupInfo {
    type V = LookupInfoView;

    closed spec fn view(&self) -> LookupInfoView {
        LookupInfoView { addr: self.addr, cid: self.cid@, info: self.info@ }
    }
}

impl LookupInfo {
    /// Puts together where a camera answered from, the client id that it
    /// assigned, and what it said of itself.
    pub fn new(addr: Endpoint, cid: [u8; 16], info: ScanInfo) -> (found: LookupInfo)
        ensures
            found@ == (LookupInfoView { addr, cid: cid@, info: info@ }),
    {
        LookupInfo { addr, cid, info }
    }

    /// Returns socket address where the camera is bound.
    pub fn addr(&self) -> (addr: Endpoint)
        ensures
            addr == self@.addr,
    {
        self.addr
    }

    /// Returns camera's client id.
    pub fn cid(&self) -> (cid: &[u8])
        ensures
            cid@ == self@.cid,
            cid@.len() == CID_LEN,
    {
        self.cid.as_slice()
    }

    /// Returns camera's MAC address.
    pub fn mac(&self) -> (mac: &MacAddr)
        ensures
            mac@ == self@.info.mac,
    {
        self.info.mac()
    }

    /// Returns camera's firmware version.
    pub fn version(&self) -> (version: &Version)
        ensures
            version@ == self@.info.version,
    {
        self.info.version()
    }
}

/// What a datagram that arrives during a scan means for the scan.
#[derive(Debug, Clone, Copy)]
pub enum Scanned {
    /// A camera answered; the scan is over.
    Found(LookupInfo),
    /// The datagram is no scan reply, or one that cannot be read; the scan
    /// goes on.
    Ignored,
    /// The datagram does not begin with the magic: something other than a
    /// camera answered, and the scan has failed.
    Failed(ReplyError),
}

/// Mathematical counterpart of [`Scanned`].
pub ghost enum ScannedView {
    Found(LookupInfoView),
    Ignored,
    Failed(ReplyError),
}

impl View for Scanned {
    type V = ScannedView;

    open spec fn view(&self) -> ScannedView {
        match self {
            Scanned::Found(found) => ScannedView::Found(found@),
            Scanned::Ignored => ScannedView::Ignored,
            Scanned::Failed(e) => ScannedView::Failed(*e),
        }
    }
}

/// What the datagram `bytes`, received from `from` during a scan, means for
/// the scan, given how it decodes.
pub open spec fn scanned(from: Endpoint, decoded: Result<Option<ReplyView>, ReplyError>)
    -> ScannedView {
    match decoded {
        Ok(Some(reply)) => ScannedView::Found(
            LookupInfoView { addr: from, cid: reply.cid, info: reply.info },
        ),
        Ok(None) => ScannedView::Ignored,
        Err(ReplyError::MalformedReply) => ScannedView::Failed(ReplyError::MalformedReply),
        Err(_) => ScannedView::Ignored,
    }
}

/// Judges a datagram that arrived from `from` during a scan.
pub fn on_scan_datagram(bytes: &[u8], from: Endpoint) -> (step: Scanned)
    ensures
        step@ == scanned(from, scan_reply(bytes@)),
{
    match decode_scan_reply(bytes) {
        Ok(Some(reply)) => Scanned::Found(LookupInfo::new(from, reply.cid, reply.info)),
        Ok(None) => Scanned::Ignored,
        Err(ReplyError::MalformedReply) => Scanned::Failed(ReplyError::MalformedReply),
        Err(_) => Scanned::Ignored,
    }
}

} // verus!
