//! Judging what the Bitwarden Secrets CLI (`bws`) answered: retries on rate
//! limits, the errors it reports, and the secret value it returns.

use vstd::prelude::*;
use vstd::string::*;
use vstd::arithmetic::power2::pow2;
use crate::json::{json_member_text, json_str_member};
use crate::text::{contains_str, seq_contains};

verus! {

/// The arguments of `bws` that fetch the secret `id`.
pub fn bws_get_args(id: &str) -> (r: Vec<String>)
    ensures
        r@.len() == 3,
        r@[0]@ == "secret"@,
        r@[1]@ == "get"@,
        r@[2]@ == id@,
{
    let mut r: Vec<String> = Vec::new();
    r.push(String::from_str("secret"));
    r.push(String::from_str("get"));
    r.push(String::from_str(id));
    r
}

/// The arguments of `bws` that set the secret `id` to `value`.
pub fn bws_edit_args(value: &str, id: &str) -> (r: Vec<String>)
    ensures
        r@.len() == 5,
        r@[0]@ == "secret"@,
        r@[1]@ == "edit"@,
        r@[2]@ == "--value"@,
        r@[3]@ == value@,
        r@[4]@ == id@,
{
    let mut r: Vec<String> = Vec::new();
    r.push(String::from_str("secret"));
    r.push(String::from_str("edit"));
    r.push(String::from_str("--value"));
    r.push(String::from_str(value));
    r.push(String::from_str(id));
    r
}

/// What to do after an attempt of a `bws` call.
#[derive(Debug, PartialEq, Eq, Structural)]
pub enum BwsStep {
    /// Keep this attempt's output as the call's result.
    Done,
    /// Wait this many seconds, then make the next attempt.
    RetryAfter { seconds: u64 },
}

/// An attempt is retried when it failed with a rate limit (`429` in its
/// error output) and it was not the last attempt allowed.
pub open spec fn should_retry(attempt: u32, max_retries: u32, succeeded: bool, stderr: Seq<char>) -> bool {
    !succeeded && seq_contains(stderr, "429"@) && attempt < max_retries
}

/// Decides, after attempt `attempt` (counted from 1) of at most `max_retries`,
/// whether to retry; the wait doubles with each attempt: 2, 4, 8, ... seconds.
pub fn bws_retry_step(attempt: u32, max_retries: u32, succeeded: bool, stderr: &str) -> (r: BwsStep)
    requires
        should_retry(attempt, max_retries, succeeded, stderr@) ==> attempt < 64,
    ensures
        should_retry(attempt, max_retries, succeeded, stderr@) ==> r == (BwsStep::RetryAfter {
            seconds: pow2(attempt as nat) as u64,
        }),
        !should_retry(attempt, max_retries, succeeded, stderr@) ==> r == BwsStep::Done,
{
    if succeeded {
        return BwsStep::Done;
    }
    if contains_str(stderr, "429") && attempt < max_retries {
        let shift: u64 = attempt as u64;
        proof {
            vstd::arithmetic::power2::lemma_pow2_pos(shift as nat);
            vstd::bits::lemma_u64_pow2_no_overflow(shift as nat);
            vstd::bits::lemma_u64_shl_is_mul(1, shift);
        }
        return BwsStep::RetryAfter { seconds: 1u64 << shift };
    }
    BwsStep::Done
}

/// Only a rate limit is retried: an attempt is retried exactly when it
/// failed, was not the last allowed, and its error output holds `429`
/// somewhere; any other failure (a `404`, say) is final at once.
pub proof fn lemma_only_rate_limits_retry(attempt: u32, max_retries: u32, succeeded: bool, stderr: Seq<char>)
    ensures
        should_retry(attempt, max_retries, succeeded, stderr) <==> !succeeded && attempt
            < max_retries && exists|i: int|
            #![trigger stderr[i]]
            0 <= i && i + 3 <= stderr.len() && stderr[i] == '4' && stderr[i + 1] == '2' && stderr[i
                + 2] == '9',
{
    reveal_strlit("429");
    if seq_contains(stderr, "429"@) {
        let i = choose|i: int|
            0 <= i && i + 3 <= stderr.len() && #[trigger] stderr.subrange(i, i + 3) == "429"@;
        assert(stderr.subrange(i, i + 3)[0] == stderr[i]);
        assert(stderr.subrange(i, i + 3)[1] == stderr[i + 1]);
        assert(stderr.subrange(i, i + 3)[2] == stderr[i + 2]);
    }
    if exists|i: int|
        #![trigger stderr[i]]
        0 <= i && i + 3 <= stderr.len() && stderr[i] == '4' && stderr[i + 1] == '2' && stderr[i + 2]
            == '9' {
        let i = choose|i: int|
            #![trigger stderr[i]]
            0 <= i && i + 3 <= stderr.len() && stderr[i] == '4' && stderr[i + 1] == '2' && stderr[i
                + 2] == '9';
        assert(stderr.subrange(i, i + 3) =~= "429"@);
    }
}

/// A failure reported by `bws`.
#[derive(Debug)]
pub enum BwsError {
    /// The secret does not exist or the token may not write it.
    NotFoundOrDenied { secret_id: String },
    /// Any other failure, with what `bws` wrote to its error output.
    Failed { stderr: String },
}

impl BwsError {
    /// The message shown for the error.
    pub fn message(&self) -> (r: String)
        ensures
            match self {
                BwsError::NotFoundOrDenied { secret_id } => r@ == "Secret "@ + secret_id@
                    + " not found or access denied. Check that your service account token has write permissions."@,
                BwsError::Failed { stderr } => r@ == "bws failed: "@ + stderr@,
            },
    {
        match self {
            BwsError::NotFoundOrDenied { secret_id } => {
                let mut r = String::from_str("Secret ");
                r.append(secret_id.as_str());
                r.append(
                    " not found or access denied. Check that your service account token has write permissions.",
                );
                r
            },
            BwsError::Failed { stderr } => {
                let mut r = String::from_str("bws failed: ");
                r.append(stderr.as_str());
                r
            },
        }
    }
}

/// Whether a failed `bws` call reports a missing secret or missing rights.
pub open spec fn reports_not_found(stderr: Seq<char>) -> bool {
    seq_contains(stderr, "404"@) || seq_contains(stderr, "Resource not found"@)
}

/// `e` is the error that a failed edit of secret `secret_id` amounts to,
/// given the error output `stderr`: a missing secret or missing rights when
/// the output says so, otherwise the output itself.
pub open spec fn is_edit_error(e: BwsError, stderr: Seq<char>, secret_id: Seq<char>) -> bool {
    if reports_not_found(stderr) {
        e matches BwsError::NotFoundOrDenied { secret_id: id } && id@ == secret_id
    } else {
        e matches BwsError::Failed { stderr: s } && s@ == stderr
    }
}

/// The error that a failed `bws` edit of secret `secret_id` amounts to.
pub fn check_bws_error(stderr: &str, secret_id: &str) -> (r: BwsError)
    ensures
        is_edit_error(r, stderr@, secret_id@),
{
    if contains_str(stderr, "404") || contains_str(stderr, "Resource not found") {
        BwsError::NotFoundOrDenied { secret_id: String::from_str(secret_id) }
    } else {
        BwsError::Failed { stderr: String::from_str(stderr) }
    }
}

/// The outcome of a `bws` edit of secret `secret_id`, from whether it
/// succeeded and what it wrote to its error output.
pub fn update_outcome(succeeded: bool, stderr: &str, secret_id: &str) -> (r: Result<(), BwsError>)
    ensures
        succeeded <==> r is Ok,
        r matches Err(e) ==> is_edit_error(e, stderr@, secret_id@),
{
    if succeeded {
        Ok(())
    } else {
        Err(check_bws_error(stderr, secret_id))
    }
}

/// Why a secret could not be fetched.
#[derive(Debug)]
pub enum FetchError {
    /// `bws` failed; what it wrote to its error output.
    Failed { stderr: String },
    /// `bws` printed something that is not JSON.
    InvalidJson { source: serde_json::Error },
    /// The JSON that `bws` printed has no string member `value`.
    MissingValue,
}

impl FetchError {
    /// The message shown for the error (the JSON parser's own explanation
    /// goes with `InvalidJson` as its source).
    pub fn message(&self) -> (r: String)
        ensures
            match self {
                FetchError::Failed { stderr } => r@ == "bws failed: "@ + stderr@,
                FetchError::InvalidJson { .. } => r@ == "Failed to parse bws output as JSON"@,
                FetchError::MissingValue => r@ == "Secret value not found in bws output"@,
            },
    {
        match self {
            FetchError::Failed { stderr } => {
                let mut r = String::from_str("bws failed: ");
                r.append(stderr.as_str());
                r
            },
            FetchError::InvalidJson { .. } => String::from_str("Failed to parse bws output as JSON"),
            FetchError::MissingValue => String::from_str("Secret value not found in bws output"),
        }
    }
}

/// The secret value out of the output of `bws secret get`: the string member
/// `value` of the JSON it printed, provided it succeeded.
pub fn secret_from_bws_output(succeeded: bool, stdout: &[u8], stderr: &str) -> (r: Result<
    String,
    FetchError,
>)
    ensures
        !succeeded ==> (r matches Err(FetchError::Failed { stderr: s }) && s@ == stderr@),
        succeeded ==> match json_member_text(stdout@, "value"@) {
            None => r matches Err(FetchError::InvalidJson { .. }),
            Some(None) => r matches Err(FetchError::MissingValue),
            Some(Some(v)) => r matches Ok(s) && s@ == v,
        },
{
    if !succeeded {
        return Err(FetchError::Failed { stderr: String::from_str(stderr) });
    }
    secret_from_member(json_str_member(stdout, "value"))
}

/// The secret value from the `value` member read out of the JSON that `bws`
/// printed: a parse failure, a missing value, or the value.
pub fn secret_from_member(member: Result<Option<String>, serde_json::Error>) -> (r: Result<
    String,
    FetchError,
>)
    ensures
        match member {
            Err(e) => r matches Err(FetchError::InvalidJson { source }) && source == e,
            Ok(None) => r matches Err(FetchError::MissingValue),
            Ok(Some(v)) => r matches Ok(s) && s@ == v@,
        },
{
    match member {
        Err(e) => Err(FetchError::InvalidJson { source: e }),
        Ok(None) => Err(FetchError::MissingValue),
        Ok(Some(v)) => Ok(v),
    }
}

} // verus!
