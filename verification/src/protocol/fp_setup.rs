//! FairPlay set-up over the control connection.

use crate::codec;
use crate::config::DeviceCredentials;
use crate::crypto::fairplay_setup::{self, FairPlaySession};
use crate::error::{ErrorView, RottenError};
use crate::text;
use vstd::prelude::*;
use vstd::string::*;

verus! {

/// The error for a step that failed.
pub open spec fn step_error(step: Seq<char>, status: u16, len: nat) -> ErrorView {
    ErrorView::Protocol(
        "fp-setup "@ + step + " failed: HTTP "@ + text::decimal(status as nat) + " len "@
            + text::decimal(len),
    )
}

fn step_failed(step: &str, status: u16, len: usize) -> (r: RottenError)
    ensures
        r@ == step_error(step@, status, len as nat),
{
    let mut s = text::owned("fp-setup ");
    s.append(step);
    s.append(" failed: HTTP ");
    text::push_decimal(&mut s, status as u64);
    s.append(" len ");
    text::push_decimal(&mut s, len as u64);
    RottenError::Protocol(s)
}

/// Checks the first reply: status 200 and 142 bytes.
pub fn check_fp_step1(status: u16, body: &[u8]) -> (r: Result<(), RottenError>)
    ensures
        match r {
            Ok(_) => status == 200 && body@.len() == 142,
            Err(e) => !(status == 200 && body@.len() == 142) && e@ == step_error(
                "step1"@,
                status,
                body@.len(),
            ),
        },
{
    if status != 200 || body.len() != 142 {
        return Err(step_failed("step1", status, body.len()));
    }
    Ok(())
}

/// The second request, from the first reply and the output of the hash helper for it.
pub fn fp_step2_request(status: u16, body: &[u8], helper_output: &[u8]) -> (r: Result<
    [u8; 164],
    RottenError,
>)
    ensures
        match r {
            Ok(m) => {
                &&& status == 200 && body@.len() == 142
                &&& fairplay_setup::hash_fault(helper_output@) is None
                &&& m@ == fairplay_setup::key_message_with(
                    codec::hex_data(fairplay_setup::hash_text(helper_output@)),
                )
            },
            Err(e) => if status == 200 && body@.len() == 142 {
                fairplay_setup::hash_fault(helper_output@) == Some(e@)
            } else {
                e@ == step_error("step1"@, status, body@.len())
            },
        },
{
    match check_fp_step1(status, body) {
        Err(e) => return Err(e),
        Ok(_) => {},
    }
    FairPlaySession::key_message_from_setup1(body, helper_output)
}

/// The session, once the second reply has status 200 and 32 bytes.
pub fn fp_session(key_message: [u8; 164], status: u16, body: &[u8]) -> (r: Result<
    FairPlaySession,
    RottenError,
>)
    ensures
        match r {
            Ok(s) => {
                &&& status == 200 && body@.len() == 32
                &&& s.key_message == key_message
                &&& s.mode == 3
            },
            Err(e) => !(status == 200 && body@.len() == 32) && e@ == step_error(
                "step2"@,
                status,
                body@.len(),
            ),
        },
{
    if status != 200 || body.len() != 32 {
        return Err(step_failed("step2", status, body.len()));
    }
    Ok(FairPlaySession::from_key_message(key_message, FairPlaySession::fp_setup_mode()))
}

/// Sixteen hexadecimal digits of an identifier: its first sixteen, or all of them behind zeros.
pub open spec fn dacp_id(identifier: Seq<char>) -> Seq<char> {
    let hex = text::hex_digits_of(identifier);
    if hex.len() >= 16 {
        hex.take(16)
    } else {
        Seq::new((16 - hex.len()) as nat, |i: int| '0') + hex
    }
}

/// The number that the first eight hexadecimal digits of an identifier spell; a fixed one where
/// it has none.
pub open spec fn active_remote(identifier: Seq<char>) -> nat {
    let hex = text::hex_digits_of(identifier);
    if hex.len() == 0 {
        0x4a7f_9c12
    } else if hex.len() > 8 {
        text::numeral_value(hex.take(8), 16)
    } else {
        text::numeral_value(hex, 16)
    }
}

/// The identifiers under which a client can be remote controlled.
pub fn airplay_remote_ids(creds: &DeviceCredentials) -> (r: (String, u32))
    ensures
        r.0@ == dacp_id(creds.identifier@),
        r.1 == active_remote(creds.identifier@),
{
    let hex = text::keep_hex_digits(creds.identifier.as_str());
    let ghost h = text::hex_digits_of(creds.identifier@);
    let mut dacp = String::new();
    if hex.len() >= 16 {
        dacp = text::sub_string(&hex, 0, 16);
        assert(dacp@ =~= h.take(16));
    } else {
        let fill: usize = 16 - hex.len();
        let mut i: usize = 0;
        assert(dacp@ =~= Seq::new(0, |i: int| '0'));
        while i < fill
            invariant
                i <= fill,
                dacp@ == Seq::new(i as nat, |i: int| '0'),
            decreases fill - i,
        {
            dacp.push('0');
            i += 1;
            assert(dacp@ =~= Seq::new(i as nat, |i: int| '0'));
        }
        text::push_chars(&mut dacp, &hex);
        assert(dacp@ =~= dacp_id(creds.identifier@));
    }
    let n: usize = if hex.len() > 8 {
        8
    } else {
        hex.len()
    };
    let remote: u32 = if n == 0 {
        0x4a7f_9c12
    } else {
        text::hex_number(&hex, n) as u32
    };
    proof {
        if n == h.len() {
            assert(h.take(n as int) =~= h);
        }
    }
    (dacp, remote)
}

/// The remote id is sixteen hexadecimal digits: the first ones of the identifier, and where it has
/// fewer, all of them behind zeros.
pub proof fn law_remote_id(identifier: Seq<char>)
    ensures
        dacp_id(identifier).len() == 16,
        ({
            let hex = text::hex_digits_of(identifier);
            &&& hex.len() >= 16 ==> forall|i: int|
                0 <= i < 16 ==> #[trigger] dacp_id(identifier)[i] == hex[i]
            &&& hex.len() < 16 ==> dacp_id(identifier).skip(16 - hex.len()) == hex && forall|i: int|
                0 <= i < 16 - hex.len() ==> #[trigger] dacp_id(identifier)[i] == '0'
        }),
{
    let hex = text::hex_digits_of(identifier);
    if hex.len() < 16 {
        assert(dacp_id(identifier).skip(16 - hex.len()) =~= hex);
    }
}

/// The remote number is that of the first eight hexadecimal digits of the identifier: further
/// characters do not change it, and neither do characters that are no such digits.
pub proof fn law_remote_number(identifier: Seq<char>, c: char)
    ensures
        text::hex_digits_of(identifier).len() >= 8 ==> active_remote(identifier.push(c))
            == active_remote(identifier),
        !text::is_hex_digit(c) ==> active_remote(identifier.push(c)) == active_remote(identifier),
        text::hex_digits_of(identifier).len() == 0 ==> active_remote(identifier) == 0x4a7f_9c12,
        0 < text::hex_digits_of(identifier).len() < 8 && '0' <= c && c <= '9' ==> active_remote(
            identifier.push(c),
        ) == active_remote(identifier) * 16 + (c as int - 48),
        0 < text::hex_digits_of(identifier).len() < 8 && 'a' <= c && c <= 'f' ==> active_remote(
            identifier.push(c),
        ) == active_remote(identifier) * 16 + (c as int - 87),
        0 < text::hex_digits_of(identifier).len() < 8 && 'A' <= c && c <= 'F' ==> active_remote(
            identifier.push(c),
        ) == active_remote(identifier) * 16 + (c as int - 55),
        text::hex_digits_of(identifier).len() == 0 && '0' <= c && c <= '9' ==> active_remote(
            identifier.push(c),
        ) == c as int - 48,
{
    text::law_digits_are_kept(identifier, c);
    let hex = text::hex_digits_of(identifier);
    text::law_numeral_grows(hex, c);
    if hex.len() >= 8 {
        assert(hex.push(c).take(8) =~= hex.take(8));
        if hex.len() == 8 {
            assert(hex.take(8) =~= hex);
        }
    }
    if hex.len() == 0 {
        assert(hex =~= Seq::empty());
    }
}
} // verus!
