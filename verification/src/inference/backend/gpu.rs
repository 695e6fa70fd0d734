//! What is known of the GPUs of the host.
use vstd::prelude::*;

use crate::text;
use crate::text::starts_with;

verus! {

/// Snapshot of host GPU readiness.
#[derive(Debug, Clone, Copy, PartialEq, Eq, Structural)]
pub struct GpuCapabilities {
    pub cuda_visible: bool,
    pub device_count: u32,
    pub nvidia_smi_ok: bool,
}

/// How many lines name a device.
pub open spec fn devices(ls: Seq<Seq<char>>) -> nat
    decreases ls.len(),
{
    if ls.len() == 0 {
        0
    } else {
        devices(ls.drop_last()) + if text::begins(ls.last(), "GPU "@) {
            1nat
        } else {
            0
        }
    }
}

/// How many of the lines name a device.
pub fn count_devices(listing: &Vec<String>) -> (res: usize)
    ensures
        res == devices(text::all_chars(listing@)),
        res <= listing@.len(),
{
    let ghost all = text::all_chars(listing@);
    let mut n: usize = 0;
    let mut i: usize = 0;
    assert(all.take(0) =~= Seq::empty());
    while i < listing.len()
        invariant
            i <= listing@.len(),
            all == text::all_chars(listing@),
            n <= i,
            n == devices(all.take(i as int)),
        decreases listing@.len() - i,
    {
        assert(all.take(i + 1).drop_last() =~= all.take(i as int));
        if starts_with(listing[i].as_str(), "GPU ") {
            n += 1;
        }
        i += 1;
    }
    assert(all.take(i as int) =~= all);
    n
}

impl GpuCapabilities {
    /// What a probe found: devices count only where the listing came.
    pub fn probed(cuda_visible: bool, nvidia_smi_ok: bool, listing: &Vec<String>) -> (res: Self)
        requires
            listing@.len() <= u32::MAX,
        ensures
            res == (GpuCapabilities {
                cuda_visible,
                device_count: if nvidia_smi_ok {
                    devices(text::all_chars(listing@)) as u32
                } else {
                    0
                },
                nvidia_smi_ok,
            }),
    {
        let device_count: u32 = if nvidia_smi_ok {
            count_devices(listing) as u32
        } else {
            0
        };
        GpuCapabilities { cuda_visible, device_count, nvidia_smi_ok }
    }

    pub fn ready_for_local_engine(&self) -> (res: bool)
        ensures
            res == (self.nvidia_smi_ok && self.device_count > 0),
    {
        self.nvidia_smi_ok && self.device_count > 0
    }
}

/// Every line that begins with the name of a device counts once, and no other
/// line does.
pub proof fn law_devices(ls: Seq<Seq<char>>, line: Seq<char>)
    ensures
        devices(Seq::empty()) == 0,
        text::begins(line, "GPU "@) ==> devices(ls.push(line)) == devices(ls) + 1,
        !text::begins(line, "GPU "@) ==> devices(ls.push(line)) == devices(ls),
{
    assert(ls.push(line).drop_last() =~= ls);
}

} // verus!
