//! Assembles one scoreboard line from raw bytes. Bytes accumulate as
//! characters until the end-of-transmission byte (value 4) arrives,
//! which ends the line without being appended.
use vstd::prelude::*;

verus! {

/// The end-of-transmission byte that terminates a scoreboard line on
/// the wire.
pub const EOT: u8 = 4;

/// The text of the bytes strictly before the first end-of-transmission
/// byte, when one is present.
pub open spec fn spec_read_line(bytes: Seq<u8>) -> Option<Seq<char>> {
    match bytes.index_of_first(EOT) {
        Some(i) => Some(Seq::new(i as nat, |j: int| bytes[j] as char)),
        None => None,
    }
}

/// Relies on `String::push`: appends exactly one character at the end.
#[verifier::external_body]
fn push_char(s: &mut String, c: char)
    ensures
        final(s)@ == old(s)@.push(c),
{
    s.push(c)
}

/// One step of the read loop: appends the received byte to the line
/// being assembled, unless it is the terminator, which ends the line
/// without being appended.
pub fn line_step(line: &mut String, byte: u8) -> (done: bool)
    ensures
        done == (byte == EOT),
        done ==> final(line)@ == old(line)@,
        !done ==> final(line)@ == old(line)@.push(byte as char),
{
    if byte == EOT {
        true
    } else {
        push_char(line, byte as char);
        false
    }
}

/// Scans the received bytes for one full line: the text strictly before
/// the first end-of-transmission byte, or `None` when no terminator has
/// arrived, in which case the caller must keep reading.
pub fn read_line(bytes: &Vec<u8>) -> (r: Option<String>)
    ensures
        (match r {
            Some(line) => spec_read_line(bytes@) == Some(line@),
            None => spec_read_line(bytes@) is None,
        }),
{
    let n = bytes.len();
    let mut line = String::new();
    let mut i: usize = 0;
    loop
        invariant
            n == bytes@.len(),
            i <= n,
            forall|j: int| 0 <= j < i ==> bytes@[j] != EOT,
            line@ == Seq::new(i as nat, |j: int| bytes@[j] as char),
        ensures
            (match spec_read_line(bytes@) {
                Some(l) => line@ == l,
                None => true,
            }),
            (spec_read_line(bytes@) is Some) == (i < n),
        decreases n - i,
    {
        if i == n {
            proof {
                bytes@.index_of_first_ensures(EOT);
            }
            break;
        }
        let b = bytes[i];
        if line_step(&mut line, b) {
            proof {
                bytes@.index_of_first_ensures(EOT);
                assert(bytes@.index_of_first(EOT) == Some(i as int));
            }
            break;
        }
        assert(line@ =~= Seq::new((i + 1) as nat, |j: int| bytes@[j] as char));
        i = i + 1;
    }
    if i < bytes.len() {
        Some(line)
    } else {
        None
    }
}

} // verus!
