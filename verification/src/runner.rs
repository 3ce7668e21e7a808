//! The process runner's verdict on an exit status: success is silent,
//! and each way a tool can fail yields a distinct message naming the
//! command and the numeric code or signal.

use vstd::prelude::*;

use crate::text::{i64_to_dec, spec_dec_int};

verus! {

/// Judges an exit status: `Ok` on success, and otherwise an error text
/// that names the command and the code or signal it ended with.
pub fn eval_status(cmd: &str, success: bool, code: Option<i32>, signal: Option<i32>) -> (r:
    Result<(), String>)
    ensures
        r is Ok <==> success,
        !success ==> (r matches Err(e) && e@ == (match code {
            Some(c) => cmd@ + " exited with status of "@ + spec_dec_int(c as int),
            None => match signal {
                Some(s) => cmd@ + " terminated with signal "@ + spec_dec_int(s as int),
                None => cmd@ + " status is unknown"@,
            },
        })),
{
    if success {
        return Ok(());
    }
    match code {
        Some(c) => {
            let mut e = cmd.to_owned();
            e.append(" exited with status of ");
            let d = i64_to_dec(c as i64);
            e.append(d.as_str());
            proof {
                assert(e@ =~= cmd@ + " exited with status of "@ + spec_dec_int(c as int));
            }
            Err(e)
        },
        None => match signal {
            Some(s) => {
                let mut e = cmd.to_owned();
                e.append(" terminated with signal ");
                let d = i64_to_dec(s as i64);
                e.append(d.as_str());
                proof {
                    assert(e@ =~= cmd@ + " terminated with signal "@ + spec_dec_int(s as int));
                }
                Err(e)
            },
            None => {
                let mut e = cmd.to_owned();
                e.append(" status is unknown");
                Err(e)
            },
        },
    }
}

} // verus!
