//! Protocol version negotiation.
//!
//! The client's version is echoed when it is one this server speaks; otherwise
//! the reply is our own latest, so that the client can decide whether to
//! continue.

use vstd::prelude::*;

use crate::text::same;

verus! {

/// The version offered when the client proposes something we do not know.
pub const LATEST: &'static str = "2025-06-18";

/// The oldest version this server speaks.
pub const OLDEST: &'static str = "2024-11-05";

/// The version between the two.
pub const MIDDLE: &'static str = "2025-03-26";

/// Whether this server speaks `version`.
pub open spec fn is_supported(version: Seq<char>) -> bool {
    version == LATEST@ || version == MIDDLE@ || version == OLDEST@
}

/// The version that answers a proposal.
pub open spec fn negotiated(requested: Option<Seq<char>>) -> Seq<char> {
    match requested {
        Some(v) => if is_supported(v) {
            v
        } else {
            LATEST@
        },
        None => OLDEST@,
    }
}

/// The protocol version that both sides will speak.
#[derive(Debug, PartialEq, Eq)]
pub struct ProtocolVersion(String);

impl View for ProtocolVersion {
    type V = Seq<char>;

    closed spec fn view(&self) -> Seq<char> {
        self.0@
    }
}

impl ProtocolVersion {
    /// Negotiates against the client's proposal.
    ///
    /// `None` (client omitted the field) selects the oldest supported version,
    /// which is the most compatible choice for a client too old to advertise.
    pub fn negotiate(requested: Option<&str>) -> (r: ProtocolVersion)
        ensures
            r@ == negotiated(
                match requested {
                    Some(v) => Some(v@),
                    None => None,
                },
            ),
    {
        match requested {
            Some(v) => {
                if same(v, LATEST) || same(v, MIDDLE) || same(v, OLDEST) {
                    ProtocolVersion(v.to_owned())
                } else {
                    ProtocolVersion(LATEST.to_owned())
                }
            },
            None => ProtocolVersion(OLDEST.to_owned()),
        }
    }

    /// The version as text.
    pub fn as_str(&self) -> (r: &str)
        ensures
            r@ == self@,
    {
        self.0.as_str()
    }
}

/// Whatever the client proposes, the answer is a version this server speaks;
/// a proposal that it speaks is echoed, and answering the answer changes
/// nothing.
pub proof fn lemma_negotiation(requested: Option<Seq<char>>)
    ensures
        is_supported(negotiated(requested)),
        requested matches Some(v) ==> (is_supported(v) <==> negotiated(requested) == v),
        negotiated(Some(negotiated(requested))) == negotiated(requested),
{
}

/// A version that is not spoken here is answered with the latest one that is, and
/// where none was proposed the oldest is spoken: none that is spoken comes after the
/// first or before the second.
pub proof fn lemma_fallbacks(requested: Option<Seq<char>>, version: Seq<char>)
    ensures
        is_supported(version) <==> version == "2025-06-18"@ || version == "2025-03-26"@ || version
            == "2024-11-05"@,
        requested matches Some(v) ==> (!is_supported(v) ==> negotiated(requested)
            == "2025-06-18"@),
        requested is None ==> negotiated(requested) == "2024-11-05"@,
{
}

} // verus!
