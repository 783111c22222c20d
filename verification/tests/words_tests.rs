use md5sum::words::{Fm, Gm, Hm, Im, Word};

#[test]
fn rotations_and_shifts() {
    let x: u32 = 0x1234_5678;
    assert_eq!(x.rotr::<8>(), 0x7812_3456);
    assert_eq!(x.rotl::<8>(), 0x3456_7812);
    assert_eq!(x.rotr::<7>().rotl::<7>(), x);
    assert_eq!(x.shr::<4>(), 0x0123_4567);
    let y: u64 = 0x0123_4567_89ab_cdef;
    assert_eq!(y.rotr::<4>(), 0xf012_3456_789a_bcde);
    assert_eq!(y.rotl::<19>().rotr::<19>(), y);
    assert_eq!(y.shr::<60>(), 0);
}

#[test]
fn sha2_word_functions() {
    assert_eq!(u32::ch(0xffff_0000, 0x1234_5678, 0x9abc_def0), 0x1234_def0);
    assert_eq!(u32::maj(0xff00_ff00, 0x0ff0_0ff0, 0x00ff_00ff), 0x0ff0_0ff0 & 0xff00_ff00 | 0xff00_ff00 & 0x00ff_00ff | 0x0ff0_0ff0 & 0x00ff_00ff);
    let x: u32 = 0x6a09_e667;
    assert_eq!(u32::bsig0(x), x.rotate_right(2) ^ x.rotate_right(13) ^ x.rotate_right(22));
    assert_eq!(u32::bsig1(x), x.rotate_right(6) ^ x.rotate_right(11) ^ x.rotate_right(25));
    assert_eq!(u32::ssig0(x), x.rotate_right(7) ^ x.rotate_right(18) ^ (x >> 3));
    assert_eq!(u32::ssig1(x), x.rotate_right(17) ^ x.rotate_right(19) ^ (x >> 10));
    let y: u64 = 0x6a09_e667_f3bc_c908;
    assert_eq!(u64::bsig0(y), y.rotate_right(28) ^ y.rotate_right(34) ^ y.rotate_right(39));
    assert_eq!(u64::bsig1(y), y.rotate_right(14) ^ y.rotate_right(18) ^ y.rotate_right(41));
    assert_eq!(u64::ssig0(y), y.rotate_right(1) ^ y.rotate_right(8) ^ (y >> 7));
    assert_eq!(u64::ssig1(y), y.rotate_right(19) ^ y.rotate_right(61) ^ (y >> 6));
    assert_eq!(u64::ch(u64::MAX, 5, 9), 5);
    assert_eq!(u64::maj(1, 1, 0), 1);
}

#[test]
fn md5_mixing_functions() {
    assert_eq!(Fm(0xffff_0000, 0x1234_5678, 0x9abc_def0), 0x1234_def0);
    assert_eq!(Gm(0x1234_5678, 0x9abc_def0, 0xffff_0000), 0x1234_def0);
    assert_eq!(Hm(0xf0f0_f0f0, 0xff00_ff00, 0x0000_ffff), 0x0ff0_f00f);
    assert_eq!(Im(0, 0, 0xffff_ffff), 0);
    assert_eq!(Im(0, 0, 0), 0xffff_ffff);
}
