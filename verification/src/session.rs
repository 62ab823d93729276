//! One streaming session with a camera: which of the arriving datagrams carry
//! video, and when the camera is owed a report that keeps the stream alive.
use crate::rtp::Header;
use crate::wire::be32;
use crate::wire::be32_bytes;
use crate::wire::u32_bytes;
use vstd::prelude::*;

verus! {

/// Number of bytes that the camera puts in front of the media header.
pub const PREFIX_LEN: usize = 4;

/// Length of the shortest datagram that can carry media: the prefix and the
/// media header.
pub const MIN_DATAGRAM_LEN: usize = 16;

/// Index, in a datagram, of the byte that tells the kind of frame.
pub const FRAME_KIND_AT: usize = 2;

/// The kind of frame that carries video.
pub const VIDEO_FRAME: u8 = 1;

/// The protocol version that the media header must carry.
pub const RTP_VERSION: u8 = 2;

/// The synchronization source that the camera gives its video track.
pub const VIDEO_SSRC: u32 = 16;

/// Number of milliseconds after which the camera is owed another report.
pub const REPORT_INTERVAL_MS: u64 = 1000;

/// Number of seconds from the first day of 1900 to the first day of 1970.
pub const NTP_OFFSET_SECS: u64 = 2208988800;

/// The source that the reports name as their sender.
pub const REPORT_SOURCE: u32 = 2;

/// Length of a report.
pub const REPORT_LEN: usize = 32;

/// The seconds of the NTP timestamp for a time given in milliseconds since
/// the first day of 1970: the seconds since the first day of 1900, as far as
/// 32 bits hold them.
pub open spec fn ntp_seconds(unix_millis: u64) -> u32 {
    ((unix_millis / 1000 + NTP_OFFSET_SECS) % 0x1_0000_0000) as u32
}

/// The fraction of the NTP timestamp: the milliseconds within the second, in
/// units of one second divided by two to the power of 32.
pub open spec fn ntp_fraction(unix_millis: u64) -> u32 {
    ((unix_millis % 1000) * 0x1_0000_0000 / 1000) as u32
}

/// The bytes that open every report: the camera's own header, then version
/// and packet type of a sender report, then its length in words less one.
pub open spec fn report_head() -> Seq<u8> {
    seq![0x00u8, 0x00, 0x01, 0x00, 0x80, 0xc8, 0x00, 0x06]
}

/// The report that keeps the stream alive, for the wall-clock time
/// `unix_millis`: the head, the source, the NTP timestamp, and three words of
/// zero.
pub open spec fn report(unix_millis: u64) -> Seq<u8> {
    report_head() + be32_bytes(REPORT_SOURCE) + be32_bytes(ntp_seconds(unix_millis)) + be32_bytes(
        ntp_fraction(unix_millis),
    ) + be32_bytes(0) + be32_bytes(0) + be32_bytes(0)
}

/// Builds the report for the wall-clock time `unix_millis`, in milliseconds
/// since the first day of 1970.
pub fn sender_report(unix_millis: u64) -> (out: Vec<u8>)
    ensures
        out@ == report(unix_millis),
        out@.len() == REPORT_LEN,
{
    let mut out: Vec<u8> = Vec::new();
    out.push(0x00);
    out.push(0x00);
    out.push(0x01);
    out.push(0x00);
    out.push(0x80);
    out.push(0xc8);
    out.push(0x00);
    out.push(0x06);
    assert(out@ =~= report_head());
    let seconds = ((unix_millis / 1000 + NTP_OFFSET_SECS) % 0x1_0000_0000) as u32;
    let fraction = ((unix_millis % 1000) * 0x1_0000_0000 / 1000) as u32;
    let source = u32_bytes(REPORT_SOURCE);
    out.extend_from_slice(source.as_slice());
    let high = u32_bytes(seconds);
    out.extend_from_slice(high.as_slice());
    let low = u32_bytes(fraction);
    out.extend_from_slice(low.as_slice());
    let zero = u32_bytes(0);
    out.extend_from_slice(zero.as_slice());
    out.extend_from_slice(zero.as_slice());
    out.extend_from_slice(zero.as_slice());
    out
}

/// Whether a datagram carries video of the track `ssrc`: it is long enough
/// to hold prefix and media header, its frame kind is video, and the header
/// has the right version and names the track.
pub open spec fn is_video(datagram: Seq<u8>, ssrc: u32) -> bool {
    &&& datagram.len() >= MIN_DATAGRAM_LEN
    &&& Header::version_of(datagram[4]) == RTP_VERSION
    &&& datagram[FRAME_KIND_AT as int] == VIDEO_FRAME
    &&& be32(datagram[12], datagram[13], datagram[14], datagram[15]) == ssrc
}

/// What is handed on of a datagram: all of it but the camera's prefix, if it
/// carries video of the track `ssrc`.
pub open spec fn video_payload_of(datagram: Seq<u8>, ssrc: u32) -> Option<Seq<u8>> {
    if is_video(datagram, ssrc) {
        Some(datagram.skip(PREFIX_LEN as int))
    } else {
        None
    }
}

/// The view of an optional slice.
pub open spec fn slice_option_view(s: Option<&[u8]>) -> Option<Seq<u8>> {
    match s {
        Some(bytes) => Some(bytes@),
        None => None,
    }
}

/// Picks the payload out of a datagram that carries video of the track
/// `ssrc`; any other datagram has none.
pub fn video_payload<'a>(datagram: &'a [u8], ssrc: u32) -> (payload: Option<&'a [u8]>)
    ensures
        slice_option_view(payload) == video_payload_of(datagram@, ssrc),
{
    let n = datagram.len();
    if n < MIN_DATAGRAM_LEN {
        return None;
    }
    let rest = &datagram[PREFIX_LEN..n];
    assert(rest@ =~= datagram@.skip(PREFIX_LEN as int));
    match Header::from_slice(rest) {
        Ok(header) => {
            if header.version() != RTP_VERSION {
                return None;
            }
            if datagram[FRAME_KIND_AT] != VIDEO_FRAME {
                return None;
            }
            if header.ssrc() != ssrc {
                return None;
            }
            Some(rest)
        },
        Err(_) => None,
    }
}

/// Whether a report is owed at the time `now`, when the last one was sent at
/// the time `last`, both in milliseconds of a clock that does not go back.
pub open spec fn report_due(last: u64, now: u64) -> bool {
    now - last >= REPORT_INTERVAL_MS
}

/// What is to be done about a datagram that arrived.
#[derive(Debug, Clone, Copy)]
pub struct Reaction<'a> {
    /// Whether a report is to be sent to the datagram's sender, before
    /// anything else is done.
    pub report_due: bool,
    /// The payload that is to be handed on, if the datagram has one.
    pub payload: Option<&'a [u8]>,
}

/// The state of a streaming session: when the camera last got a report, and
/// which track is wanted.
#[derive(Debug, Clone, Copy)]
pub struct StreamSession {
    last_report: u64,
    ssrc: u32,
}

impl StreamSession {
    /// The time of the last report.
    pub closed spec fn last_report(&self) -> u64 {
        self.last_report
    }

    /// The track whose payloads are handed on.
    pub closed spec fn ssrc(&self) -> u32 {
        self.ssrc
    }

    /// A session that begins at the time `now` and wants the camera's video
    /// track.
    pub fn new(now: u64) -> (session: StreamSession)
        ensures
            session.last_report() == now,
            session.ssrc() == VIDEO_SSRC,
    {
        StreamSession { last_report: now, ssrc: VIDEO_SSRC }
    }

    /// A session that begins at the time `now` and wants the track `ssrc`.
    pub fn with_ssrc(now: u64, ssrc: u32) -> (session: StreamSession)
        ensures
            session.last_report() == now,
            session.ssrc() == ssrc,
    {
        StreamSession { last_report: now, ssrc }
    }

    /// Takes in a datagram that arrived at the time `now`.
    ///
    /// A report is owed once a second has gone by since the last one, whatever
    /// the datagram holds; the session then counts from `now`. The datagram's
    /// payload is handed on if it carries video of the wanted track.
    pub fn on_datagram<'a>(&mut self, now: u64, datagram: &'a [u8]) -> (reaction: Reaction<'a>)
        ensures
            reaction.report_due == report_due(old(self).last_report(), now),
            final(self).last_report() == if reaction.report_due {
                now
            } else {
                old(self).last_report()
            },
            final(self).ssrc() == old(self).ssrc(),
            slice_option_view(reaction.payload) == video_payload_of(datagram@, old(self).ssrc()),
    {
        let due = now >= self.last_report && now - self.last_report >= REPORT_INTERVAL_MS;
        if due {
            self.last_report = now;
        }
        Reaction { report_due: due, payload: video_payload(datagram, self.ssrc) }
    }
}

} // verus!
