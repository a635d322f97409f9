use vstd::prelude::*;

use crate::text::{parse_decimal, spec_decimal};

verus! {

/// The closed set of reply status codes of the DICT protocol.
#[derive(Debug, Clone, Copy, PartialEq, Eq, Structural)]
pub enum StatusCode {
    /// 110 n databases present - text follows
    DatabasePresend,
    /// 111 n strategies available - text follows
    StrategiesAvailable,
    /// 112 database information follows
    DatabaseInfo,
    /// 113 help text follows
    HelpText,
    /// 114 server information follows
    ServerInfo,
    /// 130 challenge follows
    ChallengeFollows,
    /// 150 n definitions retrieved - definitions follow
    DefinitionsRetrieved,
    /// 151 word database name - text follows
    DefinitionFollows,
    /// 152 n matches found - text follows
    MatchesFound,
    /// 210 optional timing and statistical information
    TimingInfo,
    /// 220 text msg-id
    TextMsgId,
    /// 221 closing connection
    ClosingConnection,
    /// 230 authentication successful
    AuthenticationSuccessful,
    /// 250 ok
    Okay,
    /// 330 send response
    SendResponse,
    /// 420 server temporarily unavailable
    ServerTemporarilyUnavailable,
    /// 421 server shutting down at operator request
    ServerShuttingDown,
    /// 500 syntax error, command not recognized
    SyntaxErrorCommandNotRecognized,
    /// 501 syntax error, illegal parameters
    SyntaxErrorIllegalParameters,
    /// 502 command not implemented
    CommandNotImplemented,
    /// 503 command parameter not implemented
    CommandParameterNotImplemented,
    /// 530 access denied
    AccessDenied,
    /// 531 access denied, use "SHOW INFO" for server information
    AccessDeniedShowInfo,
    /// 532 access denied, unknown mechanism
    AccessDeniedUnknownMechanism,
    /// 550 invalid database
    InvalidDatabase,
    /// 551 invalid strategy
    InvalidStrategy,
    /// 552 no match
    NoMatch,
    /// 554 no databases present
    NoDatabasesPresent,
    /// 555 no strategies available
    NoStrategiesAvailable,
}

impl StatusCode {
    /// The numeric value of the code on the wire.
    pub open spec fn value(self) -> int {
        match self {
            StatusCode::DatabasePresend => 110,
            StatusCode::StrategiesAvailable => 111,
            StatusCode::DatabaseInfo => 112,
            StatusCode::HelpText => 113,
            StatusCode::ServerInfo => 114,
            StatusCode::ChallengeFollows => 130,
            StatusCode::DefinitionsRetrieved => 150,
            StatusCode::DefinitionFollows => 151,
            StatusCode::MatchesFound => 152,
            StatusCode::TimingInfo => 210,
            StatusCode::TextMsgId => 220,
            StatusCode::ClosingConnection => 221,
            StatusCode::AuthenticationSuccessful => 230,
            StatusCode::Okay => 250,
            StatusCode::SendResponse => 330,
            StatusCode::ServerTemporarilyUnavailable => 420,
            StatusCode::ServerShuttingDown => 421,
            StatusCode::SyntaxErrorCommandNotRecognized => 500,
            StatusCode::SyntaxErrorIllegalParameters => 501,
            StatusCode::CommandNotImplemented => 502,
            StatusCode::CommandParameterNotImplemented => 503,
            StatusCode::AccessDenied => 530,
            StatusCode::AccessDeniedShowInfo => 531,
            StatusCode::AccessDeniedUnknownMechanism => 532,
            StatusCode::InvalidDatabase => 550,
            StatusCode::InvalidStrategy => 551,
            StatusCode::NoMatch => 552,
            StatusCode::NoDatabasesPresent => 554,
            StatusCode::NoStrategiesAvailable => 555,
        }
    }

    /// The code whose value is `n`, if `n` is in the table.
    pub open spec fn spec_from_int(n: int) -> Option<StatusCode> {
        if exists|c: StatusCode| c.value() == n {
            Some(choose|c: StatusCode| c.value() == n)
        } else {
            None
        }
    }

    /// The code named by a decimal token, if the token is one.
    pub open spec fn spec_from_text(s: Seq<char>) -> Option<StatusCode> {
        match spec_decimal(s) {
            Some(n) => StatusCode::spec_from_int(n),
            None => None,
        }
    }

    /// Codes whose reply is followed by text blocks ended by a lone ".".
    pub open spec fn spec_is_multi_line(self) -> bool {
        ||| self == StatusCode::DatabasePresend
        ||| self == StatusCode::StrategiesAvailable
        ||| self == StatusCode::DefinitionsRetrieved
        ||| self == StatusCode::DefinitionFollows
        ||| self == StatusCode::MatchesFound
        ||| self == StatusCode::TextMsgId
    }

    /// Codes in 500..=599, and the two service-unavailable codes 420 and 421.
    pub open spec fn spec_is_error(self) -> bool {
        (500 <= self.value() <= 599) || self.value() == 420 || self.value() == 421
    }

    /// The numeric value of the code.
    pub fn to_u16(self) -> (r: u16)
        ensures
            r as int == self.value(),
    {
        match self {
            StatusCode::DatabasePresend => 110,
            StatusCode::StrategiesAvailable => 111,
            StatusCode::DatabaseInfo => 112,
            StatusCode::HelpText => 113,
            StatusCode::ServerInfo => 114,
            StatusCode::ChallengeFollows => 130,
            StatusCode::DefinitionsRetrieved => 150,
            StatusCode::DefinitionFollows => 151,
            StatusCode::MatchesFound => 152,
            StatusCode::TimingInfo => 210,
            StatusCode::TextMsgId => 220,
            StatusCode::ClosingConnection => 221,
            StatusCode::AuthenticationSuccessful => 230,
            StatusCode::Okay => 250,
            StatusCode::SendResponse => 330,
            StatusCode::ServerTemporarilyUnavailable => 420,
            StatusCode::ServerShuttingDown => 421,
            StatusCode::SyntaxErrorCommandNotRecognized => 500,
            StatusCode::SyntaxErrorIllegalParameters => 501,
            StatusCode::CommandNotImplemented => 502,
            StatusCode::CommandParameterNotImplemented => 503,
            StatusCode::AccessDenied => 530,
            StatusCode::AccessDeniedShowInfo => 531,
            StatusCode::AccessDeniedUnknownMechanism => 532,
            StatusCode::InvalidDatabase => 550,
            StatusCode::InvalidStrategy => 551,
            StatusCode::NoMatch => 552,
            StatusCode::NoDatabasesPresent => 554,
            StatusCode::NoStrategiesAvailable => 555,
        }
    }

    /// Classifies a numeric code; `None` for every value outside the table.
    pub fn from_u16(code: u16) -> (r: Option<StatusCode>)
        ensures
            r == StatusCode::spec_from_int(code as int),
            r matches Some(c) ==> c.value() == code as int,
    {
        let r = match code {
            110 => Some(StatusCode::DatabasePresend),
            111 => Some(StatusCode::StrategiesAvailable),
            112 => Some(StatusCode::DatabaseInfo),
            113 => Some(StatusCode::HelpText),
            114 => Some(StatusCode::ServerInfo),
            130 => Some(StatusCode::ChallengeFollows),
            150 => Some(StatusCode::DefinitionsRetrieved),
            151 => Some(StatusCode::DefinitionFollows),
            152 => Some(StatusCode::MatchesFound),
            210 => Some(StatusCode::TimingInfo),
            220 => Some(StatusCode::TextMsgId),
            221 => Some(StatusCode::ClosingConnection),
            230 => Some(StatusCode::AuthenticationSuccessful),
            250 => Some(StatusCode::Okay),
            330 => Some(StatusCode::SendResponse),
            420 => Some(StatusCode::ServerTemporarilyUnavailable),
            421 => Some(StatusCode::ServerShuttingDown),
            500 => Some(StatusCode::SyntaxErrorCommandNotRecognized),
            501 => Some(StatusCode::SyntaxErrorIllegalParameters),
            502 => Some(StatusCode::CommandNotImplemented),
            503 => Some(StatusCode::CommandParameterNotImplemented),
            530 => Some(StatusCode::AccessDenied),
            531 => Some(StatusCode::AccessDeniedShowInfo),
            532 => Some(StatusCode::AccessDeniedUnknownMechanism),
            550 => Some(StatusCode::InvalidDatabase),
            551 => Some(StatusCode::InvalidStrategy),
            552 => Some(StatusCode::NoMatch),
            554 => Some(StatusCode::NoDatabasesPresent),
            555 => Some(StatusCode::NoStrategiesAvailable),
            _ => None,
        };
        proof {
            lemma_classify_inverts_value(code as int);
        }
        r
    }

    /// Classifies a decimal status token; `None` unless the token is an
    /// optional '+' followed by ASCII digits and names a code of the table.
    pub fn from_str(code: &str) -> (r: Option<StatusCode>)
        ensures
            r == StatusCode::spec_from_text(code@),
    {
        match parse_decimal(code) {
            Some(n) => {
                if n <= 65535 {
                    StatusCode::from_u16(n as u16)
                } else {
                    proof {
                        lemma_classify_inverts_value(n as int);
                    }
                    None
                }
            },
            None => {
                proof {
                    if let Some(v) = spec_decimal(code@) {
                        lemma_classify_inverts_value(v);
                    }
                }
                None
            },
        }
    }

    /// Whether the reply carries text blocks ended by a line holding only ".".
    pub fn is_multple_data(self) -> (r: bool)
        ensures
            r == self.spec_is_multi_line(),
    {
        matches!(
            self,
            StatusCode::DatabasePresend | StatusCode::StrategiesAvailable
                | StatusCode::DefinitionsRetrieved | StatusCode::DefinitionFollows
                | StatusCode::MatchesFound | StatusCode::TextMsgId
        )
    }

    /// Whether the code signals failure: 500 to 599, 420 and 421.
    pub fn is_error(self) -> (r: bool)
        ensures
            r == ((500 <= self.value() <= 599) || self.value() == 420 || self.value() == 421),
    {
        let v = self.to_u16();
        (500 <= v && v <= 599) || v == 420 || v == 421
    }
}

/// Classification inverts `value` exactly: a number is classified as `c`
/// if and only if it is the value of `c`, and every number that is no
/// code's value is unrecognized.
pub proof fn lemma_classify_inverts_value(n: int)
    ensures
        StatusCode::spec_from_int(n) matches Some(c) ==> c.value() == n,
        forall|c: StatusCode| #[trigger] c.value() == n ==> StatusCode::spec_from_int(n) == Some(c),
        StatusCode::spec_from_int(n) is None <==> (forall|c: StatusCode| #[trigger] c.value() != n),
        StatusCode::spec_from_int(n) is Some ==> 110 <= n <= 555,
{
    if exists|c: StatusCode| c.value() == n {
        let c = choose|c: StatusCode| c.value() == n;
        assert forall|d: StatusCode| #[trigger] d.value() == n implies d == c by {
            assert(d.value() == c.value());
        }
    }
}

} // verus!
