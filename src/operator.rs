use vstd::prelude::*;
use vstd::string::StrSliceExecFns;

verus! {

/// The unary moves a search can be configured with.
#[derive(Clone, Copy, Debug, PartialEq, Eq, Structural)]
pub enum UnaryOp {
    Swap1,
    SwapN,
}

/// A configuration that cannot be run.
#[derive(Clone, Copy, Debug, PartialEq, Eq, Structural)]
pub enum ConfigError {
    UnsupportedOperator,
}

/// What `str::to_lowercase` makes of a text.
pub uninterp spec fn lower_of(s: Seq<char>) -> Seq<char>;

/// Relies on `str::to_lowercase`: the lowercase form, which depends on the
/// characters alone.
#[verifier::external_body]
fn lowercase(s: &str) -> (r: String)
    ensures
        r@ == lower_of(s@),
{
    s.to_lowercase()
}

/// The operator that a lowercase key names.
pub open spec fn operator_for_key(key: Seq<char>) -> Result<UnaryOp, ConfigError> {
    if key == "1swap"@ {
        Ok(UnaryOp::Swap1)
    } else if key == "nswap"@ {
        Ok(UnaryOp::SwapN)
    } else {
        Err(ConfigError::UnsupportedOperator)
    }
}

/// Whether two texts hold the same characters.
fn same_text(a: &str, b: &str) -> (r: bool)
    ensures
        r == (a@ == b@),
{
    let n = a.unicode_len();
    if n != b.unicode_len() {
        return false;
    }
    let mut i: usize = 0;
    while i < n
        invariant
            n == a@.len(),
            n == b@.len(),
            i <= n,
            forall|k: int| 0 <= k < i ==> a@[k] == b@[k],
        decreases n - i,
    {
        if a.get_char(i) != b.get_char(i) {
            return false;
        }
        i += 1;
    }
    proof {
        assert(a@ =~= b@);
    }
    true
}

impl UnaryOp {
    /// The operator for a key already in lowercase: "1swap" or "nswap".
    pub fn from_lowered(key: &str) -> (r: Result<UnaryOp, ConfigError>)
        ensures
            r == operator_for_key(key@),
    {
        if same_text(key, "1swap") {
            Ok(UnaryOp::Swap1)
        } else if same_text(key, "nswap") {
            Ok(UnaryOp::SwapN)
        } else {
            Err(ConfigError::UnsupportedOperator)
        }
    }

    /// The operator that `name` names, compared without regard to case; an
    /// unknown name is a configuration error.
    pub fn parse(name: &str) -> (r: Result<UnaryOp, ConfigError>)
        ensures
            r == operator_for_key(lower_of(name@)),
    {
        let key = lowercase(name);
        UnaryOp::from_lowered(key.as_str())
    }

    /// The lowercase key of the operator.
    pub fn key(&self) -> (r: &'static str)
        ensures
            *self == UnaryOp::Swap1 ==> r@ == "1swap"@,
            *self == UnaryOp::SwapN ==> r@ == "nswap"@,
    {
        match self {
            UnaryOp::Swap1 => "1swap",
            UnaryOp::SwapN => "nswap",
        }
    }

    /// The name under which a finished run with this operator is saved.
    pub fn save_name(&self) -> (r: &'static str)
        ensures
            *self == UnaryOp::Swap1 ==> r@ == "hillclimber_1swap_restarts"@,
            *self == UnaryOp::SwapN ==> r@ == "hillclimber_nswap_restarts"@,
    {
        match self {
            UnaryOp::Swap1 => "hillclimber_1swap_restarts",
            UnaryOp::SwapN => "hillclimber_nswap_restarts",
        }
    }
}

} // verus!
