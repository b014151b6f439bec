//! How a relay tells sources that their packets do not fit.

use crate::daemon::UpstreamConfig;
use crate::forwarding::RelayPmtuOutcome;
use crate::pmtu::{
    feedback_decision, FeedbackModel, Given, PmtuFeedback, PmtuFeedbackError, PmtuFeedbackSender,
    TRACKED_FLOWS,
};
use crate::time::{Duration, Instant};
use crate::wording::feedback_words;
use vstd::prelude::*;

verus! {

/// Tells sources that their packets do not fit, where it is asked to.
#[derive(Debug)]
pub struct RelayPmtuFeedback {
    pub sender: Option<PmtuFeedbackSender>,
}

/// Why sources cannot be told.
#[derive(Debug, Clone, Copy, PartialEq, Eq, Structural)]
pub enum FeedbackSetupError {
    /// There is no address to tell them from.
    NoInterface,
    Sender(PmtuFeedbackError),
}

/// What to do about a packet that does not fit.
#[derive(Debug, PartialEq, Eq)]
pub enum RelayFeedbackStep {
    /// Send this from the local address.
    Send(Vec<u8>),
    /// Nothing is sent.
    Done(RelayPmtuOutcome),
}

/// What is to be done by a decision on feedback.
pub open spec fn follows(
    step: RelayFeedbackStep,
    decision: Result<FeedbackModel, PmtuFeedbackError>,
) -> bool {
    match decision {
        Ok(FeedbackModel::Send(datagram)) => step matches RelayFeedbackStep::Send(sent) && sent@
            == datagram,
        Ok(FeedbackModel::RateLimited) => step == RelayFeedbackStep::Done(
            RelayPmtuOutcome::RateLimited,
        ),
        Ok(FeedbackModel::Suppressed) => step == RelayFeedbackStep::Done(
            RelayPmtuOutcome::Suppressed,
        ),
        Ok(FeedbackModel::AddressFamilyUnavailable) => step == RelayFeedbackStep::Done(
            RelayPmtuOutcome::AddressFamilyUnavailable,
        ),
        Err(error) => step matches RelayFeedbackStep::Done(RelayPmtuOutcome::Failed(text))
            && text@ == feedback_words(error),
    }
}

/// Why sources cannot be told, in words.
pub open spec fn setup_words(error: FeedbackSetupError) -> Seq<char> {
    match error {
        FeedbackSetupError::NoInterface => {
            "PMTU feedback requires an explicit upstream interface address"@
        },
        FeedbackSetupError::Sender(error) => feedback_words(error),
    }
}

impl FeedbackSetupError {
    /// The error in words.
    pub fn message(&self) -> (text: String)
        ensures
            text@ == setup_words(*self),
    {
        match self {
            FeedbackSetupError::NoInterface => {
                "PMTU feedback requires an explicit upstream interface address".to_string()
            },
            FeedbackSetupError::Sender(error) => error.message(),
        }
    }
}

impl RelayPmtuFeedback {
    pub open spec fn wf(&self) -> bool {
        self.sender matches Some(sender) ==> sender.wf()
    }

    /// Sources are told from the address of the upstream interface.
    pub fn new(enabled: bool, upstream: UpstreamConfig) -> (result: Result<
        Self,
        FeedbackSetupError,
    >)
        ensures
            match result {
                Ok(feedback) => {
                    &&& feedback.wf()
                    &&& feedback.sender is Some == enabled
                    &&& feedback.sender matches Some(sender) ==> {
                        &&& upstream.interface == Some(sender.local_address)
                        &&& !sender.local_address.unspecified_spec()
                        &&& !sender.local_address.multicast_spec()
                        &&& sender.limiter.given() == Seq::<Given>::empty()
                        &&& sender.limiter.interval() == Duration::secs_spec(1)
                        &&& sender.limiter.capacity() == TRACKED_FLOWS
                    }
                },
                Err(error) => enabled && match upstream.interface {
                    None => error == FeedbackSetupError::NoInterface,
                    Some(address) => (address.unspecified_spec() || address.multicast_spec())
                        && error == FeedbackSetupError::Sender(
                        PmtuFeedbackError::InvalidLocalAddress(address),
                    ),
                },
            },
    {
        if !enabled {
            return Ok(RelayPmtuFeedback { sender: None });
        }
        let local_address = match upstream.interface {
            Some(address) => address,
            None => return Err(FeedbackSetupError::NoInterface),
        };
        match PmtuFeedbackSender::new(local_address) {
            Ok(sender) => Ok(RelayPmtuFeedback { sender: Some(sender) }),
            Err(error) => Err(FeedbackSetupError::Sender(error)),
        }
    }

    /// Decides on the feedback for a packet that does not fit.
    pub fn prepare(&mut self, now: Instant, packet: &[u8], tunnel_mtu: usize) -> (step:
        RelayFeedbackStep)
        requires
            old(self).wf(),
        ensures
            final(self).wf(),
            match old(self).sender {
                None => *final(self) == *old(self) && step == RelayFeedbackStep::Done(
                    RelayPmtuOutcome::Disabled,
                ),
                Some(before) => {
                    &&& final(self).sender matches Some(after) && after.local_address
                        == before.local_address && after.limiter.interval()
                        == before.limiter.interval() && after.limiter.capacity()
                        == before.limiter.capacity() && after.limiter.given()
                        == feedback_decision(
                        before.local_address,
                        before.limiter,
                        now,
                        packet@,
                        tunnel_mtu,
                    ).0
                    &&& follows(
                        step,
                        feedback_decision(
                            before.local_address,
                            before.limiter,
                            now,
                            packet@,
                            tunnel_mtu,
                        ).1,
                    )
                },
            },
    {
        match &mut self.sender {
            None => RelayFeedbackStep::Done(RelayPmtuOutcome::Disabled),
            Some(sender) => match sender.prepare(now, packet, tunnel_mtu) {
                Ok(PmtuFeedback::Send(datagram)) => RelayFeedbackStep::Send(datagram),
                Ok(PmtuFeedback::RateLimited) => {
                    RelayFeedbackStep::Done(RelayPmtuOutcome::RateLimited)
                },
                Ok(PmtuFeedback::Suppressed) => {
                    RelayFeedbackStep::Done(RelayPmtuOutcome::Suppressed)
                },
                Ok(PmtuFeedback::AddressFamilyUnavailable) => {
                    RelayFeedbackStep::Done(RelayPmtuOutcome::AddressFamilyUnavailable)
                },
                Err(error) => RelayFeedbackStep::Done(RelayPmtuOutcome::Failed(error.message())),
            },
        }
    }
}

} // verus!
