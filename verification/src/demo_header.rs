//! A demo file's header: what the demo list shows of each demo (its map,
//! server, recording player, length) and what a replay entry is made from.
use vstd::prelude::*;

verus! {

/// Bytes read from the start of a demo file to list it.
pub const LISTING_READ_BYTES: usize = 1080;

/// Bytes the header takes.
pub const HEADER_BYTES: usize = 1072;

/// A demo's header. The playing time is kept as the bit pattern of the
/// 32-bit float the file stores, in seconds.
pub struct DemoHeader {
    pub demo_type: String,
    pub version: u32,
    pub protocol: u32,
    pub server: String,
    pub nick: String,
    pub map: String,
    pub game: String,
    pub duration_bits: u32,
    pub ticks: u32,
    pub frames: u32,
    pub signon: u32,
}

/// The header's fields as plain values.
pub open spec fn header_fields(d: DemoHeader) -> (
    Seq<char>,
    u32,
    u32,
    Seq<char>,
    Seq<char>,
    Seq<char>,
    Seq<char>,
    u32,
    u32,
    u32,
    u32,
) {
    (
        d.demo_type@,
        d.version,
        d.protocol,
        d.server@,
        d.nick@,
        d.map@,
        d.game@,
        d.duration_bits,
        d.ticks,
        d.frames,
        d.signon,
    )
}

/// The header that `tf_demo_parser`'s `Header` reader finds at the start of
/// `bytes`, as the fields of `header_fields`, or `None` where it refuses
/// them.
pub uninterp spec fn demo_header(bytes: Seq<u8>) -> Option<
    (Seq<char>, u32, u32, Seq<char>, Seq<char>, Seq<char>, Seq<char>, u32, u32, u32, u32),
>;

/// Reads the header at the start of `bytes` with `tf_demo_parser`
/// (`Demo::new`, then reading a `Header` from its stream), the playing time
/// taken by its bit pattern. The reader's field layout and text decoding
/// are the crate's and are left to `demo_header`; it refuses, rather than
/// panics on, data too short for the header's 1072 bytes.
#[verifier::external_body]
pub(crate) fn read_demo_header(bytes: &[u8]) -> (r: Option<DemoHeader>)
    ensures
        match demo_header(bytes@) {
            None => r is None,
            Some(h) => r matches Some(d) && header_fields(d) == h,
        },
        bytes@.len() < HEADER_BYTES ==> r is None,
{
    let demo = tf_demo_parser::Demo::new(bytes);
    match demo.get_stream().read::<tf_demo_parser::demo::header::Header>() {
        Ok(h) => Some(DemoHeader {
            demo_type: h.demo_type, version: h.version, protocol: h.protocol, server: h.server,
            nick: h.nick, map: h.map, game: h.game, duration_bits: h.duration.to_bits(),
            ticks: h.ticks, frames: h.frames, signon: h.signon,
        }),
        Err(_) => None,
    }
}

/// The first `n` bytes of `data`.
fn prefix(data: &[u8], n: usize) -> (v: Vec<u8>)
    requires
        n <= data@.len(),
    ensures
        v@ == data@.subrange(0, n as int),
{
    let mut v: Vec<u8> = Vec::with_capacity(n);
    let mut i: usize = 0;
    while i < n
        invariant
            i <= n <= data@.len(),
            v@ == data@.subrange(0, i as int),
        decreases n - i,
    {
        v.push(data[i]);
        i += 1;
    }
    v
}

/// The header a demo is listed with, from the file's bytes: read from the
/// file's first 1080 bytes, and `None` where the file is shorter than that
/// or its header does not read.
pub fn demo_listing(bytes: &[u8]) -> (r: Option<DemoHeader>)
    ensures
        bytes@.len() < LISTING_READ_BYTES ==> r is None,
        bytes@.len() >= LISTING_READ_BYTES ==> match demo_header(bytes@.subrange(0, LISTING_READ_BYTES as int)) {
            None => r is None,
            Some(h) => r matches Some(d) && header_fields(d) == h,
        },
{
    if bytes.len() < LISTING_READ_BYTES {
        return None;
    }
    let head = prefix(bytes, LISTING_READ_BYTES);
    read_demo_header(head.as_slice())
}

} // verus!
