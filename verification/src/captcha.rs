//! The captcha coordinator: a single dispatch point that hands a challenge to
//! a pluggable solving strategy and returns the solution tagged with the
//! strategy that produced it. Exactly one challenge is solved per call; no
//! retry, no caching.

use vstd::prelude::*;

use crate::types::CaptchaChallenge;
use crate::types::CaptchaSolution;
use crate::types::CaptchaStrategy;
use crate::types::SpecCaptchaChallenge;

verus! {

/// Solving failed or was rejected by the operator.
#[derive(Debug, Clone, PartialEq, Eq)]
pub struct CaptchaError {
    pub message: String,
}

impl View for CaptchaError {
    type V = Seq<char>;

    open spec fn view(&self) -> Seq<char> {
        self.message@
    }
}

/// A pluggable captcha-solving strategy.
///
/// A handler abstracts its behaviour as a response function over challenges:
/// solving succeeds exactly when that function yields a response, and every
/// solution carries the original challenge and the handler's strategy tag.
pub trait CaptchaHandler: Sized {
    /// Short human-readable handler name for diagnostics.
    fn label(&self) -> (r: &'static str);

    /// The strategy tag this handler records on its solutions.
    spec fn strategy(&self) -> CaptchaStrategy;

    /// The response this handler produces for `c`, `None` when solving fails.
    spec fn response_for(&self, c: SpecCaptchaChallenge) -> Option<Seq<char>>;

    /// Solve one challenge; the challenge is consumed exactly once.
    fn solve(&self, challenge: CaptchaChallenge) -> (r: Result<CaptchaSolution, CaptchaError>)
        ensures
            r is Ok <==> self.response_for(challenge@) is Some,
            r matches Ok(sol) ==> sol@.challenge == challenge@ && Some(sol@.response)
                == self.response_for(challenge@) && sol@.strategy == self.strategy(),
    ;
}

/// Built-in stand-in handler: answers every challenge with a fixed manual
/// placeholder response, tagged as manually solved.
pub struct NoopCaptcha;

impl CaptchaHandler for NoopCaptcha {
    fn label(&self) -> (r: &'static str) {
        "noop-captcha"
    }

    open spec fn strategy(&self) -> CaptchaStrategy {
        CaptchaStrategy::Manual
    }

    open spec fn response_for(&self, c: SpecCaptchaChallenge) -> Option<Seq<char>> {
        Some("manual-input-placeholder"@)
    }

    fn solve(&self, challenge: CaptchaChallenge) -> (r: Result<CaptchaSolution, CaptchaError>) {
        Ok(
            CaptchaSolution {
                challenge,
                response: "manual-input-placeholder".to_owned(),
                strategy: CaptchaStrategy::Manual,
            },
        )
    }
}

} // verus!
