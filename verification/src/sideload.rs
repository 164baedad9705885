//! The sideload block-transfer driver. The device drives a pull model: it
//! requests block indices by number and the host answers with the payload
//! bytes at `block * SIDELOAD_CHUNK`. The driver here decides, for each
//! received frame, what to send back and how the resume journal changes; the
//! embedding program performs the USB transfers and the file reads.

use vstd::prelude::*;
use vstd::string::StrSliceExecFns;
use vstd::string::StringExecFns;
use vstd::string::StringSliceAdditionalSpecFns;

use crate::adb::ADB_OKAY;
use crate::adb::ADB_WRTE;
use crate::errors::Error;
use crate::text::all_dec_digits;
use crate::text::is_dec_digit;
use crate::text::lemma_dec_val_bound;
use crate::text::lemma_trim_len;
use crate::text::parse_u64_dec;
use crate::text::pow10;
use crate::text::push_dec_i64;
use crate::text::push_dec_u64;
use crate::text::push_json_escaped;
use crate::text::push_str_bytes;
use crate::text::spec_dec_bytes;
use crate::text::spec_dec_val;
use crate::text::spec_hex_digit_byte;
use crate::text::spec_json_esc_byte;
use crate::text::spec_json_escaped;
use crate::text::spec_sdec_bytes;
use crate::text::spec_trim;
use crate::text::trim_ascii;

verus! {

/// Bytes of file data sent per device-requested block.
pub const SIDELOAD_CHUNK: u64 = 1024 * 64;

/// The resume journal, persisted as a JSON sidecar next to the payload.
/// `last_block == -1` means nothing has been acknowledged yet. A journal
/// whose `size` differs from the current payload size is stale and ignored.
#[derive(Debug, Clone, PartialEq, Eq)]
pub struct SideloadState {
    pub file: String,
    pub size: u64,
    pub last_block: i64,
}

/// The sidecar path tied to a payload path.
pub fn state_path(path: &str) -> (r: String)
    ensures
        r@ == path@ + ".sideload.state"@,
{
    let mut s = String::from_str(path);
    s.append(".sideload.state");
    s
}

/// The first block to request. Resume continues after the journal's last
/// acknowledged block only when resuming was asked for and the journal
/// matches the payload size; a stale, absent or nonsensical journal starts
/// from zero.
pub open spec fn spec_start_block(resume: bool, journal: Option<SideloadState>, size: u64) -> u64 {
    match journal {
        Option::Some(st) => {
            if resume && st.size == size && 0 <= st.last_block && st.last_block
                < 0x7fff_ffff_ffff_ffffi64 {
                (st.last_block + 1) as u64
            } else {
                0
            }
        },
        Option::None => 0,
    }
}

pub fn resume_start_block(resume: bool, journal: &Option<SideloadState>, size: u64) -> (r: u64)
    ensures
        r == spec_start_block(resume, *journal, size),
        r <= 0x7fff_ffff_ffff_ffffu64,
{
    match journal {
        Option::Some(st) => {
            if resume && st.size == size && st.last_block >= 0 && st.last_block
                < 0x7fff_ffff_ffff_ffff {
                (st.last_block + 1) as u64
            } else {
                0
            }
        },
        Option::None => 0,
    }
}

/// The payload of the OPEN frame that starts a sideload session:
/// `sideload-host:<size>:<chunk>:<token>:<start_block>` with a trailing NUL
/// (the NUL is counted in the frame length).
pub open spec fn spec_open_payload(size: u64, token: Seq<u8>, start_block: u64) -> Seq<u8> {
    "sideload-host:".spec_bytes() + spec_dec_bytes(size as nat) + seq![0x3au8] + spec_dec_bytes(
        SIDELOAD_CHUNK as nat,
    ) + seq![0x3au8] + token + seq![0x3au8] + spec_dec_bytes(start_block as nat) + seq![0x00u8]
}

pub fn open_payload(size: u64, token: &str, start_block: u64) -> (r: Vec<u8>)
    ensures
        r@ == spec_open_payload(size, token.spec_bytes(), start_block),
{
    let mut out: Vec<u8> = Vec::new();
    push_str_bytes(&mut out, "sideload-host:");
    push_dec_u64(&mut out, size);
    out.push(0x3a);
    push_dec_u64(&mut out, SIDELOAD_CHUNK);
    out.push(0x3a);
    push_str_bytes(&mut out, token);
    out.push(0x3a);
    push_dec_u64(&mut out, start_block);
    out.push(0x00);
    proof {
        assert(out@ =~= spec_open_payload(size, token.spec_bytes(), start_block));
    }
    out
}

/// A sideload block request payload, parsed: ASCII whitespace trimmed from
/// both ends, an optional leading plus sign, then an unsigned decimal
/// number that fits in a `u64`.
pub open spec fn spec_parse_block(payload: Seq<u8>) -> Option<u64> {
    let t = spec_trim(payload);
    let d = if t.len() > 0 && t[0] == 0x2b {
        t.drop_first()
    } else {
        t
    };
    if d.len() > 0 && all_dec_digits(d) && spec_dec_val(d) <= u64::MAX {
        Option::Some(spec_dec_val(d) as u64)
    } else {
        Option::None
    }
}

pub fn parse_block(payload: &[u8]) -> (r: Option<u64>)
    ensures
        r == spec_parse_block(payload@),
{
    let t = trim_ascii(payload);
    if t.len() > 0 && t[0] == 0x2b {
        let (_, rest) = t.as_slice().split_at(1);
        proof {
            assert(t@.subrange(1, t@.len() as int) =~= t@.drop_first());
        }
        parse_u64_dec(rest)
    } else {
        parse_u64_dec(t.as_slice())
    }
}

/// What the embedding program must do after handing a frame to the driver.
#[derive(Clone, Copy, Debug, PartialEq, Eq, Structural)]
pub enum SideloadAction {
    /// Answer an interleaved acknowledgement with an OKAY frame carrying
    /// these args, then keep receiving.
    SendOkay { arg0: u32, arg1: u32 },
    /// Drop the frame and keep receiving.
    Ignore,
    /// Read `len` payload bytes at `offset`, send them in a WRTE frame with
    /// these args followed by an empty OKAY frame, and save the journal
    /// when `flush` is set.
    SendBlock { arg0: u32, arg1: u32, offset: u64, len: u64, flush: bool },
    /// The device signalled completion: leave the loop and clear the
    /// journal.
    Finish,
}

/// The state the driver carries between frames: the payload size, the first
/// block this run serves, and the last block acknowledged so far.
#[derive(Debug, Clone, PartialEq, Eq, Structural)]
pub struct SideloadDriver {
    pub size: u64,
    pub start_block: u64,
    pub last_block: i64,
    pub finished: bool,
}

impl SideloadDriver {
    pub open spec fn wf(self) -> bool {
        &&& self.start_block <= 0x7fff_ffff_ffff_ffffu64
        &&& -1 <= self.last_block
    }

    pub fn new(size: u64, start_block: u64) -> (r: Self)
        requires
            start_block <= 0x7fff_ffff_ffff_ffffu64,
        ensures
            r == (SideloadDriver {
                size,
                start_block,
                last_block: (start_block - 1) as i64,
                finished: false,
            }),
            r.wf(),
    {
        SideloadDriver { size, start_block, last_block: (start_block as i64) - 1, finished: false }
    }

    /// Decide what to do with one received frame. Interleaved OKAY frames
    /// are echoed; frames other than WRTE are tolerated and dropped; a WRTE
    /// payload longer than eight bytes is a textual completion message; an
    /// unparsable block number is a protocol error; a block below the
    /// resume point is skipped without a write; a block past the end of the
    /// file completes the transfer; any other block is served from the file
    /// and becomes the last acknowledged block, with the journal flushed
    /// every sixteenth block.
    pub fn on_frame(&mut self, cmd: u32, arg0: u32, arg1: u32, payload: &[u8]) -> (r: Result<
        SideloadAction,
        Error,
    >)
        requires
            old(self).wf(),
        ensures
            final(self).wf(),
            final(self).size == old(self).size,
            final(self).start_block == old(self).start_block,
            cmd == ADB_OKAY ==> r == Ok::<_, Error>(SideloadAction::SendOkay { arg0: arg1, arg1: arg0 })
                && *final(self) == *old(self),
            cmd != ADB_OKAY && cmd != ADB_WRTE ==> r == Ok::<_, Error>(SideloadAction::Ignore)
                && *final(self) == *old(self),
            cmd == ADB_WRTE && payload@.len() > 8 ==> r == Ok::<_, Error>(SideloadAction::Finish)
                && *final(self) == (SideloadDriver { finished: true, ..*old(self) }),
            cmd == ADB_WRTE && payload@.len() <= 8 ==> match spec_parse_block(payload@) {
                Option::None => (r matches Err(Error::Protocol(m)) && m@
                    == "invalid block number"@) && *final(self) == *old(self),
                Option::Some(b) => {
                    if b < old(self).start_block {
                        r == Ok::<_, Error>(SideloadAction::Ignore) && *final(self) == *old(self)
                    } else if b * SIDELOAD_CHUNK > old(self).size {
                        r == Ok::<_, Error>(SideloadAction::Finish) && *final(self) == (SideloadDriver {
                            finished: true,
                            ..*old(self)
                        })
                    } else {
                        r == Ok::<_, Error>(SideloadAction::SendBlock {
                            arg0: arg1,
                            arg1: arg0,
                            offset: (b * SIDELOAD_CHUNK) as u64,
                            len: if SIDELOAD_CHUNK <= old(self).size - b * SIDELOAD_CHUNK {
                                SIDELOAD_CHUNK
                            } else {
                                (old(self).size - b * SIDELOAD_CHUNK) as u64
                            },
                            flush: b % 16 == 0,
                        }) && *final(self) == (SideloadDriver {
                            last_block: b as i64,
                            ..*old(self)
                        })
                    }
                },
            },
    {
        if cmd == ADB_OKAY {
            return Ok(SideloadAction::SendOkay { arg0: arg1, arg1: arg0 });
        }
        if cmd != ADB_WRTE {
            return Ok(SideloadAction::Ignore);
        }
        if payload.len() > 8 {
            self.finished = true;
            return Ok(SideloadAction::Finish);
        }
        let block_opt = parse_block(payload);
        match block_opt {
            Option::None => Err(Error::Protocol(String::from_str("invalid block number"))),
            Option::Some(b) => {
                if b < self.start_block {
                    return Ok(SideloadAction::Ignore);
                }
                proof {
                    lemma_block_value_small(payload@, b);
                }
                let offset = b * SIDELOAD_CHUNK;
                if offset > self.size {
                    self.finished = true;
                    return Ok(SideloadAction::Finish);
                }
                let remaining = self.size - offset;
                let len = if SIDELOAD_CHUNK <= remaining {
                    SIDELOAD_CHUNK
                } else {
                    remaining
                };
                let flush = b % 16 == 0;
                self.last_block = b as i64;
                Ok(SideloadAction::SendBlock { arg0: arg1, arg1: arg0, offset, len, flush })
            },
        }
    }

    /// The journal to persist for this driver state: the payload path and
    /// size and the last acknowledged block (`start_block - 1` when nothing
    /// was acknowledged in this run).
    pub fn journal_record(&self, path: &str) -> (r: SideloadState)
        ensures
            r.file@ == path@,
            r.size == self.size,
            r.last_block == self.last_block,
    {
        SideloadState {
            file: String::from_str(path),
            size: self.size,
            last_block: self.last_block,
        }
    }
}

/// A block number parsed from a payload of at most eight bytes is below
/// `10^8`, so its byte offset fits comfortably in a `u64`.
proof fn lemma_block_value_small(payload: Seq<u8>, b: u64)
    requires
        payload.len() <= 8,
        spec_parse_block(payload) == Option::Some(b),
    ensures
        b < 100000000,
{
    let t = spec_trim(payload);
    let d = if t.len() > 0 && t[0] == 0x2b {
        t.drop_first()
    } else {
        t
    };
    lemma_trim_len(payload);
    lemma_dec_val_bound(d);
    lemma_pow10_le(d.len(), 8);
    assert(pow10(0) == 1);
    assert(pow10(1) == 10);
    assert(pow10(2) == 100);
    assert(pow10(3) == 1000);
    assert(pow10(4) == 10000);
    assert(pow10(5) == 100000);
    assert(pow10(6) == 1000000);
    assert(pow10(7) == 10000000);
    assert(pow10(8) == 100000000);
}

proof fn lemma_pow10_le(a: nat, b: nat)
    requires
        a <= b,
    ensures
        pow10(a) <= pow10(b),
    decreases b,
{
    if a < b {
        lemma_pow10_le(a, (b - 1) as nat);
        assert(pow10(b) == 10 * pow10((b - 1) as nat));
        assert(pow10((b - 1) as nat) >= 1) by {
            lemma_pow10_pos((b - 1) as nat);
        }
    }
}

proof fn lemma_pow10_pos(n: nat)
    ensures
        pow10(n) >= 1,
    decreases n,
{
    if n > 0 {
        lemma_pow10_pos((n - 1) as nat);
    }
}

/// The canonical journal serialization: a JSON object with the `file`,
/// `size` and `last_block` fields in that order and no extra whitespace.
pub open spec fn spec_journal_bytes(file: Seq<char>, size: u64, last_block: i64) -> Seq<u8> {
    "{\"file\":\"".spec_bytes() + spec_json_escaped(vstd::utf8::encode_utf8(file))
        + "\",\"size\":".spec_bytes() + spec_dec_bytes(size as nat) + ",\"last_block\":".spec_bytes()
        + spec_sdec_bytes(last_block as int) + "}".spec_bytes()
}

/// The escape letters that may follow a backslash in a journal string.
pub open spec fn is_simple_escape(b: u8) -> bool {
    b == 0x22 || b == 0x5c || b == 0x62 || b == 0x74 || b == 0x6e || b == 0x66 || b == 0x72
}

/// The byte a simple escape letter stands for.
pub open spec fn spec_unescape_char(b: u8) -> u8 {
    if b == 0x62 {
        0x08u8
    } else if b == 0x74 {
        0x09u8
    } else if b == 0x6e {
        0x0au8
    } else if b == 0x66 {
        0x0cu8
    } else if b == 0x72 {
        0x0du8
    } else {
        b
    }
}

pub open spec fn is_lower_hex_digit(b: u8) -> bool {
    (0x30 <= b && b <= 0x39) || (0x61 <= b && b <= 0x66)
}

pub open spec fn spec_hex_val(b: u8) -> int {
    if b <= 0x39 {
        b - 0x30
    } else {
        b - 0x57
    }
}

/// Scan a JSON string body up to and including its closing quote: the
/// unescaped content and how many bytes were consumed. Fails on a raw
/// control byte, a malformed escape, or a missing closing quote.
pub open spec fn spec_scan_jstr(s: Seq<u8>) -> Option<(Seq<u8>, int)>
    decreases s.len(),
{
    if s.len() == 0 {
        Option::None
    } else if s[0] == 0x22 {
        Option::Some((Seq::empty(), 1))
    } else if s[0] == 0x5c {
        if s.len() >= 2 && is_simple_escape(s[1]) {
            match spec_scan_jstr(s.skip(2)) {
                Option::Some(p) => Option::Some(
                    (seq![spec_unescape_char(s[1])] + p.0, 2 + p.1),
                ),
                Option::None => Option::None,
            }
        } else if s.len() >= 6 && s[1] == 0x75 && s[2] == 0x30 && s[3] == 0x30
            && is_lower_hex_digit(s[4]) && is_lower_hex_digit(s[5]) {
            match spec_scan_jstr(s.skip(6)) {
                Option::Some(p) => Option::Some(
                    (seq![(spec_hex_val(s[4]) * 16 + spec_hex_val(s[5])) as u8] + p.0, 6 + p.1),
                ),
                Option::None => Option::None,
            }
        } else {
            Option::None
        }
    } else if s[0] >= 0x20 {
        match spec_scan_jstr(s.skip(1)) {
            Option::Some(p) => Option::Some((seq![s[0]] + p.0, 1 + p.1)),
            Option::None => Option::None,
        }
    } else {
        Option::None
    }
}

/// Scan a JSON string body starting at `i`; on success the unescaped
/// content and the index just past the closing quote.
pub fn scan_jstr(b: &[u8], i: usize) -> (r: Option<(Vec<u8>, usize)>)
    requires
        i <= b@.len(),
    ensures
        r is Some <==> spec_scan_jstr(b@.skip(i as int)) is Some,
        r matches Some(p) ==> spec_scan_jstr(b@.skip(i as int)) == Option::Some(
            (p.0@, p.1 - i as int),
        ) && i <= p.1 <= b@.len(),
{
    let mut cur: usize = i;
    let mut out: Vec<u8> = Vec::new();
    let n = b.len();
    proof {
        scan_inv_init(b@, i as int);
    }
    while cur < b.len()
        invariant
            i <= cur <= b@.len(),
            b@.len() == n,
            scan_inv(b@, i as int, cur as int, out@),
        decreases b@.len() - cur,
    {
        let ghost s = b@.skip(cur as int);
        proof {
            assert(s.len() == b@.len() - cur);
            assert(s[0] == b@[cur as int]);
        }
        let c = b[cur];
        if c == 0x22 {
            proof {
                assert(spec_scan_jstr(s) == Option::Some((Seq::<u8>::empty(), 1int)));
                assert(out@ + Seq::<u8>::empty() =~= out@);
            }
            return Some((out, cur + 1));
        } else if c == 0x5c {
            if cur + 1 >= b.len() {
                proof {
                    assert(s.len() < 2);
                    assert(spec_scan_jstr(s) is None);
                }
                return None;
            }
            let e = b[cur + 1];
            proof {
                assert(s[1] == b@[cur + 1]);
            }
            if e == 0x22 || e == 0x5c || e == 0x62 || e == 0x74 || e == 0x6e || e == 0x66 || e
                == 0x72 {
                let u: u8 = if e == 0x62 {
                    0x08
                } else if e == 0x74 {
                    0x09
                } else if e == 0x6e {
                    0x0a
                } else if e == 0x66 {
                    0x0c
                } else if e == 0x72 {
                    0x0d
                } else {
                    e
                };
                let ghost pre = out@;
                out.push(u);
                proof {
                    assert(s.skip(2) =~= b@.skip(cur + 2));
                    assert(out@ =~= pre + seq![u]);
                    scan_inv_step(b@, i as int, cur as int, pre, seq![u], 2);
                }
                cur = cur + 2;
            } else if e == 0x75 && b.len() - cur >= 6 {
                let h0 = b[cur + 2];
                let h1 = b[cur + 3];
                let h2 = b[cur + 4];
                let h3 = b[cur + 5];
                proof {
                    assert(s[2] == b@[cur + 2]);
                    assert(s[3] == b@[cur + 3]);
                    assert(s[4] == b@[cur + 4]);
                    assert(s[5] == b@[cur + 5]);
                }
                if h0 == 0x30 && h1 == 0x30 && (0x30 <= h2 && h2 <= 0x39 || 0x61 <= h2 && h2
                    <= 0x66) && (0x30 <= h3 && h3 <= 0x39 || 0x61 <= h3 && h3 <= 0x66) {
                    let v2: u8 = if h2 <= 0x39 {
                        h2 - 0x30
                    } else {
                        h2 - 0x57
                    };
                    let v3: u8 = if h3 <= 0x39 {
                        h3 - 0x30
                    } else {
                        h3 - 0x57
                    };
                    let u: u8 = v2 * 16 + v3;
                    let ghost pre = out@;
                    out.push(u);
                    proof {
                        assert(s.skip(6) =~= b@.skip(cur + 6));
                        assert(out@ =~= pre + seq![u]);
                        scan_inv_step(b@, i as int, cur as int, pre, seq![u], 6);
                    }
                    cur = cur + 6;
                } else {
                    proof {
                        assert(spec_scan_jstr(s) is None);
                    }
                    return None;
                }
            } else {
                proof {
                    if e == 0x75 {
                        assert(s.len() < 6);
                    }
                    assert(spec_scan_jstr(s) is None);
                }
                return None;
            }
        } else if c >= 0x20 {
            let ghost pre = out@;
            out.push(c);
            proof {
                assert(s.skip(1) =~= b@.skip(cur + 1));
                assert(out@ =~= pre + seq![c]);
                scan_inv_step(b@, i as int, cur as int, pre, seq![c], 1);
            }
            cur = cur + 1;
        } else {
            proof {
                assert(spec_scan_jstr(s) is None);
            }
            return None;
        }
    }
    proof {
        assert(b@.skip(cur as int).len() == 0);
        assert(spec_scan_jstr(b@.skip(cur as int)) is None);
    }
    None
}

/// The loop invariant of `scan_jstr`: scanning the whole suffix from `i`
/// gives whatever scanning from `cur` gives, prefixed by the bytes already
/// unescaped.
pub open spec fn scan_inv(b: Seq<u8>, i: int, cur: int, out: Seq<u8>) -> bool {
    spec_scan_jstr(b.skip(i)) == (match spec_scan_jstr(b.skip(cur)) {
        Option::Some(p) => Option::Some((out + p.0, (cur - i) + p.1)),
        Option::None => Option::None::<(Seq<u8>, int)>,
    })
}

proof fn scan_inv_init(b: Seq<u8>, i: int)
    requires
        0 <= i <= b.len(),
    ensures
        scan_inv(b, i, i, Seq::empty()),
{
    match spec_scan_jstr(b.skip(i)) {
        Option::Some(p) => {
            assert(Seq::<u8>::empty() + p.0 =~= p.0);
        },
        Option::None => {},
    }
}

/// One scanner step preserves the invariant: if the suffix at `cur` scans
/// as `piece` followed by whatever the suffix at `cur + n` scans as, the
/// accumulated output grows by `piece`.
proof fn scan_inv_step(b: Seq<u8>, i: int, cur: int, out: Seq<u8>, piece: Seq<u8>, n: int)
    requires
        0 <= i <= cur,
        cur + n <= b.len(),
        n >= 0,
        scan_inv(b, i, cur, out),
        spec_scan_jstr(b.skip(cur)) == (match spec_scan_jstr(b.skip(cur + n)) {
            Option::Some(p) => Option::Some((piece + p.0, n + p.1)),
            Option::None => Option::None::<(Seq<u8>, int)>,
        }),
    ensures
        scan_inv(b, i, cur + n, out + piece),
{
    match spec_scan_jstr(b.skip(cur + n)) {
        Option::Some(p) => {
            assert(out + (piece + p.0) =~= (out + piece) + p.0);
        },
        Option::None => {},
    }
}

/// The index of the first non-digit at or after `i`.
pub open spec fn spec_digits_end(s: Seq<u8>, i: int) -> int
    decreases s.len() - i,
{
    if 0 <= i < s.len() && is_dec_digit(s[i]) {
        spec_digits_end(s, i + 1)
    } else {
        i
    }
}

/// Every byte before the first non-digit is a digit, and the end stays in
/// bounds.
pub proof fn lemma_digits_end_digits(s: Seq<u8>, i: int)
    requires
        0 <= i <= s.len(),
    ensures
        i <= spec_digits_end(s, i) <= s.len(),
        forall|k: int| i <= k < spec_digits_end(s, i) ==> is_dec_digit(#[trigger] s[k]),
    decreases s.len() - i,
{
    if i < s.len() && is_dec_digit(s[i]) {
        lemma_digits_end_digits(s, i + 1);
    }
}

pub fn digits_end(b: &[u8], i: usize) -> (r: usize)
    requires
        i <= b@.len(),
    ensures
        r == spec_digits_end(b@, i as int),
        i <= r <= b@.len(),
{
    let mut cur: usize = i;
    while cur < b.len() && b[cur] >= 0x30 && b[cur] <= 0x39
        invariant
            i <= cur <= b@.len(),
            spec_digits_end(b@, i as int) == spec_digits_end(b@, cur as int),
        decreases b@.len() - cur,
    {
        cur = cur + 1;
    }
    cur
}

/// Whether `lit` stands at position `i` of `s`.
pub open spec fn spec_lit_at(s: Seq<u8>, i: int, lit: Seq<u8>) -> bool {
    0 <= i && i + lit.len() <= s.len() && s.subrange(i, i + lit.len()) == lit
}

/// Check that the bytes of `lit` stand at position `i`; on success the
/// index just past them.
pub fn expect_lit(b: &[u8], i: usize, lit: &str) -> (r: Option<usize>)
    requires
        i <= b@.len(),
    ensures
        r is Some <==> spec_lit_at(b@, i as int, lit.spec_bytes()),
        r matches Some(j) ==> j == i + lit.spec_bytes().len() && j <= b@.len(),
{
    let lb = lit.as_bytes();
    if lb.len() > b.len() - i {
        return None;
    }
    let n = b.len();
    let mut k: usize = 0;
    while k < lb.len()
        invariant
            k <= lb@.len(),
            i + lb@.len() <= b@.len(),
            b@.len() == n,
            lb@ == lit.spec_bytes(),
            forall|t: int| 0 <= t < k ==> b@[i + t] == lb@[t],
        decreases lb@.len() - k,
    {
        if b[i + k] != lb[k] {
            proof {
                assert(b@.subrange(i as int, i + lb@.len())[k as int] != lb@[k as int]);
            }
            return None;
        }
        k = k + 1;
    }
    proof {
        assert(b@.subrange(i as int, i + lb@.len()) =~= lb@);
    }
    Some(i + lb.len())
}

/// Parse the canonical journal serialization: the object written by
/// `encode_journal`, tolerating any digit run for the numbers. Anything
/// else is no journal.
pub open spec fn spec_parse_journal(b: Seq<u8>) -> Option<(Seq<u8>, u64, i64)> {
    let p0 = "{\"file\":\"".spec_bytes();
    if !spec_lit_at(b, 0, p0) {
        Option::None
    } else {
        match spec_scan_jstr(b.skip(p0.len() as int)) {
            Option::None => Option::None,
            Option::Some(scan) => {
                let fileb = scan.0;
                let i1 = p0.len() + scan.1;
                let p1 = ",\"size\":".spec_bytes();
                if !spec_lit_at(b, i1, p1) {
                    Option::None
                } else {
                    let i2 = i1 + p1.len();
                    let j2 = spec_digits_end(b, i2);
                    let d1 = b.subrange(i2, j2);
                    if !(d1.len() > 0 && spec_dec_val(d1) <= u64::MAX) {
                        Option::None
                    } else {
                        let size = spec_dec_val(d1) as u64;
                        let p2 = ",\"last_block\":".spec_bytes();
                        if !spec_lit_at(b, j2, p2) {
                            Option::None
                        } else {
                            let i3: int = j2 + p2.len();
                            let neg = i3 < b.len() && b[i3] == 0x2d;
                            let i4 = if neg {
                                i3 + 1
                            } else {
                                i3
                            };
                            let j4 = spec_digits_end(b, i4);
                            let d2 = b.subrange(i4, j4);
                            if !(d2.len() > 0 && (if neg {
                                spec_dec_val(d2) <= 0x8000_0000_0000_0000
                            } else {
                                spec_dec_val(d2) <= 0x7fff_ffff_ffff_ffff
                            })) {
                                Option::None
                            } else {
                                let last: i64 = if neg {
                                    (0 - spec_dec_val(d2)) as i64
                                } else {
                                    spec_dec_val(d2) as i64
                                };
                                if spec_lit_at(b, j4, "}".spec_bytes()) && j4
                                    + "}".spec_bytes().len() == b.len() {
                                    Option::Some((fileb, size, last))
                                } else {
                                    Option::None
                                }
                            }
                        }
                    }
                }
            },
        }
    }
}

/// Read a journal back from its sidecar bytes. Only the canonical
/// serialization is a journal; anything else (and any filesystem trouble
/// before this point) simply loses resume.
pub fn parse_journal(b: &[u8]) -> (r: Option<SideloadState>)
    ensures
        r is Some <==> spec_parse_journal(b@) is Some,
        r matches Some(st) ==> spec_parse_journal(b@) matches Some(t) && st.size == t.1
            && st.last_block == t.2 && st.file@ == crate::text::spec_utf8_lossy(t.0) && (
        vstd::utf8::valid_utf8(t.0) ==> st.file@ == vstd::utf8::decode_utf8(t.0)),
{
    let i0 = match expect_lit(b, 0, "{\"file\":\"") {
        Option::Some(j) => j,
        Option::None => {
            return None;
        },
    };
    let (fileb, i1) = match scan_jstr(b, i0) {
        Option::Some(p) => p,
        Option::None => {
            return None;
        },
    };
    let i2 = match expect_lit(b, i1, ",\"size\":") {
        Option::Some(j) => j,
        Option::None => {
            return None;
        },
    };
    let j2 = digits_end(b, i2);
    proof {
        lemma_digits_end_digits(b@, i2 as int);
        assert(all_dec_digits(b@.subrange(i2 as int, j2 as int)));
    }
    let size = match crate::text::parse_u64_dec(&b[i2..j2]) {
        Option::Some(v) => v,
        Option::None => {
            return None;
        },
    };
    let i3 = match expect_lit(b, j2, ",\"last_block\":") {
        Option::Some(j) => j,
        Option::None => {
            return None;
        },
    };
    let neg = i3 < b.len() && b[i3] == 0x2d;
    let i4 = if neg {
        i3 + 1
    } else {
        i3
    };
    let j4 = digits_end(b, i4);
    proof {
        lemma_digits_end_digits(b@, i4 as int);
        assert(all_dec_digits(b@.subrange(i4 as int, j4 as int)));
    }
    let mag = match crate::text::parse_u64_dec(&b[i4..j4]) {
        Option::Some(v) => v,
        Option::None => {
            return None;
        },
    };
    let last: i64 = if neg {
        if mag > 0x8000_0000_0000_0000u64 {
            return None;
        }
        if mag == 0x8000_0000_0000_0000u64 {
            -0x7fff_ffff_ffff_ffffi64 - 1
        } else {
            -(mag as i64)
        }
    } else {
        if mag > 0x7fff_ffff_ffff_ffffu64 {
            return None;
        }
        mag as i64
    };
    let j5 = match expect_lit(b, j4, "}") {
        Option::Some(j) => j,
        Option::None => {
            return None;
        },
    };
    if j5 != b.len() {
        return None;
    }
    let file = crate::text::bytes_to_string_lossy(fileb.as_slice());
    Some(SideloadState { file, size, last_block: last })
}

/// Serialize a journal to its sidecar bytes.
pub fn encode_journal(st: &SideloadState) -> (r: Vec<u8>)
    ensures
        r@ == spec_journal_bytes(st.file@, st.size, st.last_block),
{
    let mut out: Vec<u8> = Vec::new();
    push_str_bytes(&mut out, "{\"file\":\"");
    let fb = st.file.as_str().as_bytes();
    push_json_escaped(&mut out, fb);
    push_str_bytes(&mut out, "\",\"size\":");
    push_dec_u64(&mut out, st.size);
    push_str_bytes(&mut out, ",\"last_block\":");
    push_dec_i64(&mut out, st.last_block);
    push_str_bytes(&mut out, "}");
    proof {
        assert(out@ =~= spec_journal_bytes(st.file@, st.size, st.last_block));
    }
    out
}

/// Escaping a byte string is the same whether peeled from the front or the
/// back.
proof fn lemma_json_escaped_first(s: Seq<u8>)
    requires
        s.len() > 0,
    ensures
        spec_json_escaped(s) == spec_json_esc_byte(s[0]) + spec_json_escaped(s.drop_first()),
    decreases s.len(),
{
    if s.len() == 1 {
        assert(s.drop_last() =~= Seq::<u8>::empty());
        assert(s.drop_first() =~= Seq::<u8>::empty());
        assert(s.last() == s[0]);
        assert(Seq::<u8>::empty() + spec_json_esc_byte(s[0]) =~= spec_json_esc_byte(s[0])
            + Seq::<u8>::empty());
    } else {
        let d = s.drop_last();
        lemma_json_escaped_first(d);
        assert(s.drop_last()[0] == s[0]);
        assert(s.drop_last().drop_first() =~= s.drop_first().drop_last());
        assert(s.drop_first().last() == s.last());
        assert((spec_json_esc_byte(s[0]) + spec_json_escaped(s.drop_first().drop_last()))
            + spec_json_esc_byte(s.last()) =~= spec_json_esc_byte(s[0]) + (spec_json_escaped(
            s.drop_first().drop_last(),
        ) + spec_json_esc_byte(s.last())));
    }
}

/// The scanner undoes the escaper: an escaped byte string followed by a
/// closing quote scans back to the original bytes, whatever follows.
proof fn lemma_scan_escaped(s: Seq<u8>, rest: Seq<u8>)
    ensures
        spec_scan_jstr(spec_json_escaped(s) + (seq![0x22u8] + rest)) == Option::Some(
            (s, spec_json_escaped(s).len() + 1int),
        ),
    decreases s.len(),
{
    let e = spec_json_escaped(s);
    let w = e + (seq![0x22u8] + rest);
    if s.len() == 0 {
        assert(e =~= Seq::<u8>::empty());
        assert(w =~= seq![0x22u8] + rest);
        assert(w[0] == 0x22);
        assert(s =~= Seq::<u8>::empty());
    } else {
        lemma_json_escaped_first(s);
        let b0 = s[0];
        let eb = spec_json_esc_byte(b0);
        let s1 = s.drop_first();
        let e1 = spec_json_escaped(s1);
        lemma_scan_escaped(s1, rest);
        let w1 = e1 + (seq![0x22u8] + rest);
        assert(w =~= eb + w1);
        assert(seq![b0] + s1 =~= s);
        if b0 == 0x22 || b0 == 0x5c || b0 == 0x08 || b0 == 0x09 || b0 == 0x0a || b0 == 0x0c || b0
            == 0x0d {
            assert(w[0] == 0x5c && is_simple_escape(w[1]) && spec_unescape_char(w[1]) == b0);
            assert(w.len() >= 2);
            assert(w.skip(2) =~= w1);
        } else if b0 < 0x20 {
            assert(w[0] == 0x5c && w[1] == 0x75 && w[2] == 0x30 && w[3] == 0x30);
            assert(!is_simple_escape(w[1]));
            assert(w.len() >= 6);
            let hi = b0 as int / 16;
            let lo = b0 as int % 16;
            assert(w[4] == spec_hex_digit_byte(hi) && w[5] == spec_hex_digit_byte(lo));
            assert(is_lower_hex_digit(w[4]) && spec_hex_val(w[4]) == hi);
            assert(is_lower_hex_digit(w[5]) && spec_hex_val(w[5]) == lo);
            assert((spec_hex_val(w[4]) * 16 + spec_hex_val(w[5])) as u8 == b0);
            assert(w.skip(6) =~= w1);
        } else {
            assert(w[0] == b0 && b0 != 0x22 && b0 != 0x5c && b0 >= 0x20);
            assert(w.skip(1) =~= w1);
        }
    }
}

/// The decimal rendering is all digits, non-empty, and reads back to the
/// value it renders.
proof fn lemma_dec_bytes_val(n: nat)
    ensures
        spec_dec_bytes(n).len() >= 1,
        all_dec_digits(spec_dec_bytes(n)),
        spec_dec_val(spec_dec_bytes(n)) == n,
    decreases n,
{
    if n < 10 {
        let d = spec_dec_bytes(n);
        assert(d =~= seq![(0x30 + n) as u8]);
        assert(d.drop_last() =~= Seq::<u8>::empty());
        assert(is_dec_digit(d[0]));
        assert(spec_dec_val(Seq::<u8>::empty()) == 0);
        assert(d.last() == (0x30 + n) as u8);
        assert((d.last() - 0x30) as nat == n);
        assert(spec_dec_val(d) == spec_dec_val(d.drop_last()) * 10 + (d.last() - 0x30) as nat);
    } else {
        lemma_dec_bytes_val(n / 10);
        let p = spec_dec_bytes(n / 10);
        let b = (0x30 + n % 10) as u8;
        let d = spec_dec_bytes(n);
        assert(d == p.push(b));
        assert(d.drop_last() =~= p);
        assert(d.last() == b);
        assert(all_dec_digits(d)) by {
            assert(forall|i: int| 0 <= i < p.len() ==> d[i] == #[trigger] p[i]);
            assert(is_dec_digit(b));
        }
        assert((d.last() - 0x30) as nat == n % 10);
        assert(spec_dec_val(d) == spec_dec_val(p) * 10 + (d.last() - 0x30) as nat);
        assert(spec_dec_val(d) == (n / 10) * 10 + n % 10);
    }
}

/// A run of digits between `i` and `j`, with `j` at the end of the string
/// or a non-digit, is exactly what `spec_digits_end` finds.
proof fn lemma_digits_end_run(s: Seq<u8>, i: int, j: int)
    requires
        0 <= i <= j <= s.len(),
        forall|k: int| i <= k < j ==> is_dec_digit(#[trigger] s[k]),
        j == s.len() || !is_dec_digit(s[j]),
    ensures
        spec_digits_end(s, i) == j,
    decreases j - i,
{
    if i < j {
        lemma_digits_end_run(s, i + 1, j);
    }
}

/// The bytes of the separator literals of the journal format.
proof fn lemma_journal_lit_bytes()
    ensures
        "\",\"size\":".spec_bytes() =~= seq![
            0x22u8,
            0x2cu8,
            0x22u8,
            0x73u8,
            0x69u8,
            0x7au8,
            0x65u8,
            0x22u8,
            0x3au8,
        ],
        ",\"size\":".spec_bytes() =~= seq![
            0x2cu8,
            0x22u8,
            0x73u8,
            0x69u8,
            0x7au8,
            0x65u8,
            0x22u8,
            0x3au8,
        ],
        ",\"last_block\":".spec_bytes() =~= seq![
            0x2cu8,
            0x22u8,
            0x6cu8,
            0x61u8,
            0x73u8,
            0x74u8,
            0x5fu8,
            0x62u8,
            0x6cu8,
            0x6fu8,
            0x63u8,
            0x6bu8,
            0x22u8,
            0x3au8,
        ],
        "}".spec_bytes() =~= seq![0x7du8],
{
    broadcast use vstd::string::is_ascii_spec_bytes;

    reveal_strlit("\",\"size\":");
    reveal_strlit(",\"size\":");
    reveal_strlit(",\"last_block\":");
    reveal_strlit("}");
    assert(vstd::string::is_ascii("\",\"size\":"));
    assert(vstd::string::is_ascii(",\"size\":"));
    assert(vstd::string::is_ascii(",\"last_block\":"));
    assert(vstd::string::is_ascii("}"));
}

/// Law: a journal serialized by `encode_journal` parses back to the same
/// file bytes, size and last block, whatever the file name holds.
pub proof fn lemma_journal_roundtrip(file: Seq<char>, size: u64, last_block: i64)
    ensures
        spec_parse_journal(spec_journal_bytes(file, size, last_block)) == Option::Some(
            (vstd::utf8::encode_utf8(file), size, last_block),
        ),
{
    let p0 = "{\"file\":\"".spec_bytes();
    let fb = vstd::utf8::encode_utf8(file);
    let e = spec_json_escaped(fb);
    let p1 = "\",\"size\":".spec_bytes();
    let d1 = spec_dec_bytes(size as nat);
    let p2 = ",\"last_block\":".spec_bytes();
    let d2 = spec_sdec_bytes(last_block as int);
    let p3 = "}".spec_bytes();
    let b = spec_journal_bytes(file, size, last_block);
    lemma_journal_lit_bytes();
    lemma_dec_bytes_val(size as nat);
    assert(b =~= p0 + e + p1 + d1 + p2 + d2 + p3);
    // The leading literal.
    assert(b.subrange(0, p0.len() as int) =~= p0);
    assert(spec_lit_at(b, 0, p0));
    // The escaped file name, closed by the quote that opens `p1`.
    let rest = p1.skip(1) + d1 + p2 + d2 + p3;
    assert(b.skip(p0.len() as int) =~= e + (seq![0x22u8] + rest));
    lemma_scan_escaped(fb, rest);
    assert(spec_scan_jstr(b.skip(p0.len() as int)) == Option::Some((fb, e.len() + 1int)));
    let i1: int = p0.len() + e.len() + 1int;
    // The size separator: the tail of `p1` past its quote.
    assert(",\"size\":".spec_bytes() =~= p1.skip(1));
    assert(b.subrange(i1, i1 + 8) =~= p1.skip(1));
    assert(spec_lit_at(b, i1, ",\"size\":".spec_bytes()));
    // The size digits, ended by the comma of `p2`.
    let i2: int = i1 + 8;
    assert(b.subrange(i2, i2 + d1.len()) =~= d1);
    let j2: int = i2 + d1.len();
    assert(b[j2] == p2[0]);
    assert(!is_dec_digit(b[j2]));
    lemma_digits_end_run(b, i2, j2);
    assert(spec_dec_val(b.subrange(i2, j2)) == size);
    // The last-block separator.
    assert(b.subrange(j2, j2 + p2.len()) =~= p2);
    assert(spec_lit_at(b, j2, p2));
    let i3: int = j2 + p2.len();
    // The last-block number, signed, ended by the closing brace.
    if last_block < 0 {
        let mag = (0 - last_block as int) as nat;
        lemma_dec_bytes_val(mag);
        assert(d2 =~= seq![0x2du8] + spec_dec_bytes(mag));
        assert(b[i3] == 0x2d);
        let i4: int = i3 + 1;
        let dm = spec_dec_bytes(mag);
        assert(b.subrange(i4, i4 + dm.len()) =~= dm);
        let j4: int = i4 + dm.len();
        assert(b[j4] == 0x7d);
        assert(!is_dec_digit(b[j4]));
        lemma_digits_end_run(b, i4, j4);
        assert(spec_dec_val(b.subrange(i4, j4)) == mag);
        assert(mag <= 0x8000_0000_0000_0000);
        assert((0 - spec_dec_val(b.subrange(i4, j4))) as i64 == last_block);
        assert(b.subrange(j4, j4 + 1) =~= p3);
        assert(spec_lit_at(b, j4, p3));
        assert(j4 + p3.len() == b.len());
    } else {
        assert(d2 == spec_dec_bytes(last_block as nat));
        lemma_dec_bytes_val(last_block as nat);
        assert(b.subrange(i3, i3 + d2.len()) =~= d2);
        assert(is_dec_digit(b[i3]));
        assert(b[i3] != 0x2d);
        let j4: int = i3 + d2.len();
        assert(b[j4] == 0x7d);
        assert(!is_dec_digit(b[j4]));
        lemma_digits_end_run(b, i3, j4);
        assert(spec_dec_val(b.subrange(i3, j4)) == last_block);
        assert(spec_dec_val(b.subrange(i3, j4)) as i64 == last_block);
        assert(b.subrange(j4, j4 + 1) =~= p3);
        assert(spec_lit_at(b, j4, p3));
        assert(j4 + p3.len() == b.len());
    }
}

} // verus!
