//! The periodic HELLO and STATUS payloads of the receiver.

use vstd::prelude::*;

use crate::proto::{Hello, Status};

verus! {

/// The channel the receiver boots on.
pub const BOOT_CHANNEL: u8 = 6;

/// The HELLO payload: the firmware version padded with zeros to 16 bytes,
/// at most 8 bytes of the git hash, padded to 8, and the device MAC. The
/// caller sends it at boot and every 30th status pass.
pub fn send_hello(fw_version: &[u8], git_sha: &[u8], device_mac: [u8; 6]) -> (h: Hello)
    requires
        fw_version@.len() <= 16,
    ensures
        h.fw_version@ == fw_version@ + Seq::new((16 - fw_version@.len()) as nat, |i: int| 0u8),
        h.git_sha@ == (if git_sha@.len() <= 8 {
            git_sha@
        } else {
            git_sha@.take(8)
        }) + Seq::new(
            (8 - (if git_sha@.len() <= 8 {
                git_sha@.len()
            } else {
                8
            })) as nat,
            |i: int| 0u8,
        ),
        h.device_mac == device_mac,
        h.boot_channel == BOOT_CHANNEL,
{
    let mut fw = [0u8; 16];
    let n = fw_version.len();
    let mut k: usize = 0;
    while k < n
        invariant
            n == fw_version@.len(),
            n <= 16,
            k <= n,
            forall|j: int| 0 <= j < k ==> fw@[j] == fw_version@[j],
            forall|j: int| n <= j < 16 ==> fw@[j] == 0,
        decreases n - k,
    {
        fw[k] = fw_version[k];
        k = k + 1;
    }
    assert(fw@ =~= fw_version@ + Seq::new((16 - n) as nat, |i: int| 0u8));
    let mut sha = [0u8; 8];
    let m = if git_sha.len() < 8 {
        git_sha.len()
    } else {
        8
    };
    let mut k: usize = 0;
    while k < m
        invariant
            m <= 8,
            m <= git_sha@.len(),
            k <= m,
            forall|j: int| 0 <= j < k ==> sha@[j] == git_sha@[j],
            forall|j: int| m <= j < 8 ==> sha@[j] == 0,
        decreases m - k,
    {
        sha[k] = git_sha[k];
        k = k + 1;
    }
    assert(sha@ =~= git_sha@.take(m as int) + Seq::new((8 - m) as nat, |i: int| 0u8));
    assert(git_sha@.len() <= 8 ==> git_sha@.take(m as int) =~= git_sha@);
    Hello { fw_version: fw, git_sha: sha, device_mac, boot_channel: BOOT_CHANNEL }
}

/// The STATUS payload at `now_us`: uptime in whole seconds, the channel,
/// mode 1 when hopping, the visible tracks and free heap (cut to their
/// fields' widths), and the counters.
pub fn status_payload(
    now_us: u64,
    channel: u8,
    hop_mode: bool,
    tracks_active: usize,
    heap_free: usize,
    counters: [u32; 9],
) -> (s: Status)
    ensures
        s.uptime_s == (now_us / 1_000_000) as u32,
        s.channel == channel,
        s.mode == (if hop_mode {
            1u8
        } else {
            0u8
        }),
        s.tracks_active == tracks_active as u8,
        s.heap_free == heap_free as u32,
        s.counters == counters,
{
    Status {
        uptime_s: (now_us / 1_000_000) as u32,
        channel,
        mode: if hop_mode {
            1
        } else {
            0
        },
        tracks_active: tracks_active as u8,
        heap_free: heap_free as u32,
        counters,
    }
}

/// The status pass after `pass` (wrapping), and whether a HELLO is due on
/// it: every 30th pass.
pub fn next_pass(pass: u32) -> (r: (u32, bool))
    ensures
        r.0 == (if pass == u32::MAX {
            0
        } else {
            pass + 1
        }),
        r.1 == (r.0 % 30 == 0),
{
    let p = pass.wrapping_add(1);
    (p, p % 30 == 0)
}

} // verus!
