//! The chip's commands and their wire format.
//!
//! Every bus write to the chip is one command byte followed by the
//! command's payload, sent to the chip's fixed address.

use vstd::prelude::*;

verus! {

/// The chip's 7-bit bus address.
pub const I2C_ADDRESS: u8 = 0x54;

/// Switches the output stage on or off. Payload: `0x01` or `0x00`.
pub const CMD_ENABLE_OUTPUT: u8 = 0x00;

/// Stages the 18 channel levels. Payload: one level per channel.
pub const CMD_SET_PWM_VALUES: u8 = 0x01;

/// Stages the set of active channels. Payload: three 6-bit groups.
pub const CMD_ENABLE_LEDS: u8 = 0x13;

/// Latches what was staged. Payload: `0xFF`.
pub const CMD_UPDATE: u8 = 0x16;

/// Returns the chip to its power-on state. Payload: `0xFF`.
pub const CMD_RESET: u8 = 0x17;

/// Number of output channels.
pub const CHANNELS: usize = 18;

/// The bytes of one bus write: the command, then its payload.
pub open spec fn framed(command: u8, payload: Seq<u8>) -> Seq<u8> {
    seq![command] + payload
}

/// The payload that selects the channels of `mask`: bits 0 to 5, 6 to 11
/// and 12 to 17, one group per byte.
pub open spec fn mask_groups(mask: u32) -> Seq<u8> {
    seq![(mask & 0x3F) as u8, ((mask >> 6) & 0x3F) as u8, ((mask >> 12) & 0x3F) as u8]
}

/// Mask bits above the 18 channels select nothing.
pub proof fn lemma_mask_groups_ignore_high_bits(mask: u32)
    ensures
        mask_groups(mask) == mask_groups(mask & 0x3FFFF),
{
    assert(mask & 0x3F == (mask & 0x3FFFF) & 0x3F) by (bit_vector);
    assert((mask >> 6) & 0x3F == ((mask & 0x3FFFF) >> 6) & 0x3F) by (bit_vector);
    assert((mask >> 12) & 0x3F == ((mask & 0x3FFFF) >> 12) & 0x3F) by (bit_vector);
}

/// Channel `channel` is selected by bit `channel % 6` of group
/// `channel / 6`, which is bit `channel` of the mask.
pub proof fn lemma_mask_groups_select_channels(mask: u32, channel: u32)
    requires
        channel < 18,
    ensures
        ((mask_groups(mask)[(channel / 6) as int] as u32 >> (channel % 6)) & 1) == ((mask
            >> channel) & 1),
        mask_groups(mask)[(channel / 6) as int] < 64,
{
    let low = mask & 0x3F;
    let mid = (mask >> 6) & 0x3F;
    let high = (mask >> 12) & 0x3F;
    assert(low < 64 && mid < 64 && high < 64) by (bit_vector)
        requires
            low == mask & 0x3F,
            mid == (mask >> 6) & 0x3F,
            high == (mask >> 12) & 0x3F,
    ;
    assert(channel < 6 ==> ((low >> (channel % 6)) & 1) == ((mask >> channel) & 1)) by (bit_vector)
        requires
            low == mask & 0x3F,
    ;
    assert(6 <= channel < 12 ==> ((mid >> (channel % 6)) & 1) == ((mask >> channel) & 1))
        by (bit_vector)
        requires
            mid == (mask >> 6) & 0x3F,
    ;
    assert(12 <= channel < 18 ==> ((high >> (channel % 6)) & 1) == ((mask >> channel) & 1))
        by (bit_vector)
        requires
            high == (mask >> 12) & 0x3F,
    ;
}

/// Builds the bytes of one bus write.
pub fn frame(command: u8, payload: &[u8]) -> (r: Vec<u8>)
    ensures
        r@ == framed(command, payload@),
{
    let mut bytes: Vec<u8> = Vec::new();
    bytes.push(command);
    let mut i: usize = 0;
    while i < payload.len()
        invariant
            i <= payload@.len(),
            bytes@ == framed(command, payload@.take(i as int)),
        decreases payload@.len() - i,
    {
        bytes.push(payload[i]);
        i += 1;
        assert(bytes@ =~= framed(command, payload@.take(i as int)));
    }
    assert(payload@.take(i as int) =~= payload@);
    bytes
}

/// Splits a channel mask into its three payload bytes.
pub fn split_mask(mask: u32) -> (r: [u8; 3])
    ensures
        r@ == mask_groups(mask),
{
    let low: u32 = mask & 0x3F;
    let mid: u32 = (mask >> 6) & 0x3F;
    let high: u32 = (mask >> 12) & 0x3F;
    let groups: [u8; 3] = [low as u8, mid as u8, high as u8];
    assert(groups@ =~= mask_groups(mask));
    groups
}

} // verus!
