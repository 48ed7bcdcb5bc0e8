//! Enttec USB Pro framing for USB DMX output.
//!
//! Output frame (label 6 — "Output Only Send DMX Packet Request"):
//!   0x7E  label  len_lsb  len_msb  start_code  dmx[0..512]  0xE7
use vstd::prelude::*;

verus! {

pub const ENTTEC_BAUD: u32 = 250_000;

/// Label of the "Output Only Send DMX Packet Request" message.
pub const LABEL_OUTPUT_DMX: u8 = 6;

/// Payload length: null start code + 512 channels.
pub const DMX_PAYLOAD: u16 = 513;

/// The 518-byte frame that sends `data` as one DMX universe.
pub open spec fn enttec_frame(data: Seq<u8>) -> Seq<u8> {
    seq![0x7Eu8, 6u8, 0x01u8, 0x02u8, 0x00u8] + data + seq![0xE7u8]
}

/// A frame for the USB transmit thread.
#[derive(Debug, Clone)]
pub struct UsbTxCmd {
    pub data: [u8; 512],
}

/// Builds the Enttec USB Pro output frame for one universe.
pub fn build_enttec_frame(data: &[u8; 512]) -> (frame: [u8; 518])
    ensures
        frame@ == enttec_frame(data@),
{
    let mut frame = [0u8; 518];
    frame[0] = 0x7E;
    frame[1] = LABEL_OUTPUT_DMX;
    frame[2] = (DMX_PAYLOAD & 0xFF) as u8;
    frame[3] = ((DMX_PAYLOAD >> 8) & 0xFF) as u8;
    assert((DMX_PAYLOAD & 0xFF) as u8 == 1u8 && ((DMX_PAYLOAD >> 8) & 0xFF) as u8 == 2u8) by (bit_vector);
    frame[4] = 0x00;
    let mut i: usize = 0;
    while i < 512
        invariant
            i <= 512,
            frame@.len() == 518,
            data@.len() == 512,
            frame@[0] == 0x7E && frame@[1] == 6 && frame@[2] == 1 && frame@[3] == 2 && frame@[4] == 0,
            forall|j: int| 0 <= j < i ==> frame@[5 + j] == data@[j],
        decreases 512 - i,
    {
        frame[5 + i] = data[i];
        i = i + 1;
    }
    frame[517] = 0xE7;
    assert(frame@ =~= enttec_frame(data@));
    frame
}

} // verus!
