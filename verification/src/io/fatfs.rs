//! Mounting FAT disks: how the driver program is told what to mount.
use vstd::prelude::*;

use crate::text::push_bytes;

verus! {

/// A name: its length in one byte, and its bytes.
pub open spec fn name_record(name: Seq<u8>) -> Seq<u8> {
    seq![(name.len() % 256) as u8] + name
}

/// What the driver program reads: the letter of the drive and the name of the device.
pub open spec fn mount_request(drive_letter: Seq<u8>, device: Seq<u8>) -> Seq<u8> {
    name_record(drive_letter) + name_record(device)
}

fn push_name(out: &mut Vec<u8>, name: &[u8])
    ensures
        final(out)@ == old(out)@ + name_record(name@),
{
    out.push((name.len() % 256) as u8);
    push_bytes(out, name);
    assert(out@ =~= old(out)@ + name_record(name@));
}

/// What to send to the driver program for a drive, where there is such a program: the
/// loader of the system put it at an address, and neither that nor its size is 0.
pub fn mount_fat_fs_single(
    drive_letter: &[u8], device: &[u8], driver_address: u32, driver_size: u32,
) -> (r: Option<Vec<u8>>)
    ensures
        r is Some <==> driver_address != 0 && driver_size != 0,
        r matches Some(bytes) ==> bytes@ == mount_request(drive_letter@, device@),
{
    if driver_address == 0 || driver_size == 0 {
        return None;
    }
    let mut out: Vec<u8> = Vec::new();
    push_name(&mut out, drive_letter);
    push_name(&mut out, device);
    assert(out@ =~= mount_request(drive_letter@, device@));
    Some(out)
}

/// What a driver program understands: the two names.
pub open spec fn read_request(s: Seq<u8>) -> Option<(Seq<u8>, Seq<u8>)> {
    if s.len() < 1 || s.len() < 2 + s[0] {
        None
    } else {
        let n = s[0] as int;
        let m = s[1 + n] as int;
        if s.len() < 2 + n + m {
            None
        } else {
            Some((s.subrange(1, 1 + n), s.subrange(2 + n, 2 + n + m)))
        }
    }
}

/// The driver program understands the names that it was sent, where neither has over
/// 255 bytes.
pub proof fn mount_request_round_trip(drive_letter: Seq<u8>, device: Seq<u8>)
    requires
        drive_letter.len() <= 255,
        device.len() <= 255,
    ensures
        read_request(mount_request(drive_letter, device)) == Some((drive_letter, device)),
{
    let s = mount_request(drive_letter, device);
    let n = drive_letter.len() as int;
    let m = device.len() as int;
    assert(s[0] == n);
    assert(s[1 + n] == m);
    assert(s.subrange(1, 1 + n) =~= drive_letter);
    assert(s.subrange(2 + n, 2 + n + m) =~= device);
}

} // verus!
