//! Platform identities of files: the device a file lives on, the key under
//! which hard links to one file are recognised, and the space it occupies.
use vstd::prelude::*;

verus! {

/// The device (filesystem) a file lives on.
#[derive(Clone, Copy, Debug, PartialEq, Eq, Hash, Structural)]
pub struct DeviceId(pub u64);

/// Identifies one file however many hard links lead to it: its device and
/// its index (inode) on that device.
#[derive(Clone, Copy, Debug, PartialEq, Eq, Hash, Structural)]
pub struct HardLinkKey {
    device: DeviceId,
    index: u64,
}

/// The number `2^64`, by which the device is shifted in a key's code.
pub open spec fn index_range() -> int {
    0x1_0000_0000_0000_0000
}

impl HardLinkKey {
    pub fn new(device: DeviceId, index: u64) -> (r: Self)
        ensures
            r.device() == device,
            r.index() == index,
    {
        HardLinkKey { device, index }
    }

    pub closed spec fn device(&self) -> DeviceId {
        self.device
    }

    pub closed spec fn index(&self) -> u64 {
        self.index
    }

    /// The key as one number: the device in the high half, the index in
    /// the low half.
    pub open spec fn spec_code(&self) -> int {
        self.device().0 * index_range() + self.index()
    }

    /// The key as one number, for hashing. Two keys have the same code
    /// exactly when they are the same key.
    pub fn code(&self) -> (r: u128)
        ensures
            r == self.spec_code(),
    {
        let d: u128 = self.device.0 as u128;
        assert(d * index_range() + self.index <= (u64::MAX as int) * index_range() + u64::MAX)
            by (nonlinear_arith)
            requires
                d <= u64::MAX,
                self.index <= u64::MAX,
                index_range() == 0x1_0000_0000_0000_0000,
        ;
        d * 0x1_0000_0000_0000_0000u128 + (self.index as u128)
    }
}

/// Distinct keys have distinct codes.
pub proof fn lemma_code_injective(a: HardLinkKey, b: HardLinkKey)
    requires
        a.spec_code() == b.spec_code(),
    ensures
        a.device() == b.device(),
        a.index() == b.index(),
{
    let da = a.device().0 as int;
    let db = b.device().0 as int;
    let ia = a.index() as int;
    let ib = b.index() as int;
    assert(da == db && ia == ib) by (nonlinear_arith)
        requires
            da * 0x1_0000_0000_0000_0000 + ia == db * 0x1_0000_0000_0000_0000 + ib,
            0 <= ia < 0x1_0000_0000_0000_0000,
            0 <= ib < 0x1_0000_0000_0000_0000,
            0 <= da,
            0 <= db,
    ;
}

/// The space a file occupies on disk: its allocated 512-byte blocks where
/// the platform reports them (saturating at the largest `u64`), otherwise its
/// length.
pub open spec fn spec_disk_usage(len: u64, blocks: Option<u64>) -> u64 {
    match blocks {
        Some(b) => if b * 512 > u64::MAX { u64::MAX } else { (b * 512) as u64 },
        None => len,
    }
}

pub fn disk_usage_bytes(len: u64, blocks: Option<u64>) -> (r: u64)
    ensures
        r == spec_disk_usage(len, blocks),
{
    match blocks {
        Some(b) => if b <= u64::MAX / 512 {
            b * 512
        } else {
            u64::MAX
        },
        None => len,
    }
}

} // verus!
