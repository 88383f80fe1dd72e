//! Subscription tiers and the one-message subscription handshake.

use vstd::prelude::*;
use crate::text::same_text;

verus! {

/// What a consumer asked to receive. Fixed once per session.
#[derive(Clone, Copy, Debug, PartialEq, Eq, Structural)]
pub enum Tier {
    /// Every valid event.
    All,
    /// Only events whose code is in the critical set.
    ImportantOnly,
}

impl Tier {
    /// Whether a consumer of this tier is sent an event of the given criticality.
    pub open spec fn spec_admits(self, critical: bool) -> bool {
        self == Tier::All || critical
    }

    /// Whether a consumer of this tier is sent an event of the given criticality.
    #[verifier::when_used_as_spec(spec_admits)]
    pub fn admits(self, critical: bool) -> (r: bool)
        ensures
            r == self.spec_admits(critical),
    {
        match self {
            Tier::All => true,
            Tier::ImportantOnly => critical,
        }
    }
}

/// The control message that asks for every event.
pub open spec fn subscribe_all() -> Seq<char> {
    "SUBSCRIBE:all"@
}

/// The control message that asks for critical events only.
pub open spec fn subscribe_important() -> Seq<char> {
    "SUBSCRIBE:important"@
}

/// The tier that a first message resolves to: `ImportantOnly` for the literal
/// `SUBSCRIBE:important`, and `All` for `SUBSCRIBE:all`, for any other text and
/// for no message at all.
pub open spec fn negotiated_tier(first: Option<Seq<char>>) -> Tier {
    match first {
        Some(text) => if text == subscribe_important() {
            Tier::ImportantOnly
        } else {
            Tier::All
        },
        None => Tier::All,
    }
}

/// Resolves the first inbound message of a consumer, or its absence, to a tier.
pub fn negotiate(first: Option<&str>) -> (tier: Tier)
    ensures
        tier == negotiated_tier(
            match first {
                Some(text) => Some(text@),
                None => None,
            },
        ),
{
    match first {
        Some(text) => {
            if same_text(text, "SUBSCRIBE:important") {
                Tier::ImportantOnly
            } else {
                Tier::All
            }
        },
        None => Tier::All,
    }
}

/// Only the literal `SUBSCRIBE:important` leaves the default: no message, and any
/// message that is not that literal, resolve to `All`.
pub proof fn lemma_default_tier(first: Option<Seq<char>>)
    ensures
        first != Some(subscribe_important()) ==> negotiated_tier(first) == Tier::All,
        first == Some(subscribe_important()) ==> negotiated_tier(first) == Tier::ImportantOnly,
        negotiated_tier(Some(subscribe_all())) == Tier::All,
{
    reveal_strlit("SUBSCRIBE:all");
    reveal_strlit("SUBSCRIBE:important");
    assert(subscribe_all().len() != subscribe_important().len());
}

} // verus!
