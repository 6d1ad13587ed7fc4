use vstd::prelude::*;

verus! {

/// Eight steps of the reflected CRC-16 shift register with polynomial 0x8005 (0xA001
/// reflected): each step shifts right and folds the polynomial in when a one falls out.
pub open spec fn crc_shift(c: u16, k: nat) -> u16
    decreases k,
{
    if k == 0 {
        c
    } else {
        let c1 = crc_shift(c, (k - 1) as nat);
        if c1 & 1 == 1 { (c1 >> 1u16) ^ 0xA001u16 } else { c1 >> 1u16 }
    }
}

/// The CRC-16/MODBUS checksum of `data`: poly 0x8005, init 0xFFFF, reflected in and out, no
/// final XOR; each byte is XORed into the low byte of the register, then shifted eight times.
pub open spec fn crc16_modbus(data: Seq<u8>) -> u16
    decreases data.len(),
{
    if data.len() == 0 {
        0xFFFFu16
    } else {
        crc_shift(crc16_modbus(data.drop_last()) ^ (data.last() as u16), 8)
    }
}

/// Computes the CRC-16/MODBUS checksum of `data`, bit by bit.
pub(crate) fn crc16_modbus_checksum(data: &[u8]) -> (r: u16)
    ensures
        r == crc16_modbus(data@),
{
    let mut crc: u16 = 0xFFFF;
    let mut i: usize = 0;
    assert(data@.take(0) =~= Seq::<u8>::empty());
    while i < data.len()
        invariant
            i <= data@.len(),
            crc == crc16_modbus(data@.take(i as int)),
        decreases data.len() - i,
    {
        let start: u16 = crc ^ (data[i] as u16);
        let mut c: u16 = start;
        let mut k: usize = 0;
        while k < 8
            invariant
                k <= 8,
                c == crc_shift(start, k as nat),
            decreases 8 - k,
        {
            if c & 1 == 1 {
                c = (c >> 1u16) ^ 0xA001u16;
            } else {
                c = c >> 1u16;
            }
            k = k + 1;
        }
        proof {
            let t = data@.take(i + 1);
            assert(t.drop_last() =~= data@.take(i as int));
            assert(t.last() == data@[i as int]);
        }
        crc = c;
        i = i + 1;
    }
    assert(data@.take(data@.len() as int) =~= data@);
    crc
}

} // verus!
