//! The program association table.

use vstd::prelude::*;

use super::crc32;
use crate::wire;

verus! {

/// A section of the table `table_id` with the content `body`: its length, counted from behind the
/// length to the end of the CRC, and its CRC are filled in.
pub open spec fn section(table_id: u8, body: Seq<u8>) -> Seq<u8> {
    let n = body.len() + 4;
    let checked = seq![table_id, (0xB0 + n / 256 % 16) as u8, (n % 256) as u8] + body;
    checked + wire::be32_bytes(crc32::crc_of(checked) as int)
}

/// A 13-bit PID behind three reserved ones.
pub open spec fn pid_field(pid: u16) -> Seq<u8> {
    wire::be16_bytes(0xE000 + pid as int % 0x2000)
}

/// The PAT of a single program, whose PMT has the PID `pmt_pid`.
pub open spec fn pat_section(pmt_pid: u16) -> Seq<u8> {
    section(0x00, seq![0u8, 1u8, 0xC1u8, 0u8, 0u8, 0u8, 1u8] + pid_field(pmt_pid))
}

/// A receiver accepts every section: its CRC over all of it is 0.
pub proof fn law_section_checks(table_id: u8, body: Seq<u8>)
    ensures
        crc32::crc_of(section(table_id, body)) == 0,
{
    let n = body.len() + 4;
    let checked = seq![table_id, (0xB0 + n / 256 % 16) as u8, (n % 256) as u8] + body;
    crc32::law_crc_of_checked_sequence_is_zero(checked);
}

/// The length that a section states is its own.
pub proof fn law_section_states_length(table_id: u8, body: Seq<u8>)
    requires
        body.len() + 4 < 4096,
    ensures
        ({
            let s = section(table_id, body);
            s[1] as int % 16 * 256 + s[2] as int + 3 == s.len()
        }),
{
}

/// The section of table `table_id` with the content `body`.
pub fn build_section(table_id: u8, body: &[u8]) -> (r: Vec<u8>)
    ensures
        r@ == section(table_id, body@),
{
    let n: u128 = body.len() as u128 + 4;
    let mut s: Vec<u8> = Vec::new();
    s.push(table_id);
    s.push(0xB0 + (n / 256 % 16) as u8);
    s.push((n % 256) as u8);
    wire::append(&mut s, body);
    let ghost checked = seq![table_id, (0xB0 + n as int / 256 % 16) as u8, (n as int % 256) as u8]
        + body@;
    assert(s@ =~= checked);
    let crc: u32 = crc32::mpeg_crc32(s.as_slice());
    wire::push_be32(&mut s, crc);
    s
}

/// Appends a 13-bit PID behind three reserved ones.
pub fn push_pid(out: &mut Vec<u8>, pid: u16)
    ensures
        final(out)@ == old(out)@ + pid_field(pid),
{
    wire::push_be16(out, 0xE000 + pid % 0x2000);
}

/// Writes the PAT, without a packet header.
pub fn build_pat_section(pmt_pid: u16) -> (r: Vec<u8>)
    ensures
        r@ == pat_section(pmt_pid),
        r@.len() == 16,
{
    let mut body: Vec<u8> = Vec::new();
    wire::push_be16(&mut body, 1);
    body.push(0xC1);
    body.push(0);
    body.push(0);
    wire::push_be16(&mut body, 1);
    assert(body@ =~= seq![0u8, 1u8, 0xC1u8, 0u8, 0u8, 0u8, 1u8]);
    push_pid(&mut body, pmt_pid);
    build_section(0x00, body.as_slice())
}

/// A receiver finds in a PAT one program, and the PID of its PMT.
pub proof fn law_pat_points_to_pmt(pmt_pid: u16)
    ensures
        ({
            let s = pat_section(pmt_pid);
            &&& s[0] == 0
            &&& s.len() == 16
            &&& wire::be16_at(s, 8) == 1
            &&& wire::be16_at(s, 10) % 0x2000 == pmt_pid as int % 0x2000
        }),
{
    let s = pat_section(pmt_pid);
    let v = 0xE000 + pmt_pid as int % 0x2000;
    wire::law_be16_round_trip(v as u16);
    assert(s[10] == pid_field(pmt_pid)[0] && s[11] == pid_field(pmt_pid)[1]);
}

} // verus!
