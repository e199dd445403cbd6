//! What the errors say.
use crate::domain::DomainError;
use crate::envelope::ProtocolEnvelopeError;
use crate::errors::{SqlFault, StoreError};
use crate::master::MasterDataError;
use crate::text::{decimal, push_decimal, push_digits, push_text};
use crate::wire::ThriftError;
use vstd::prelude::*;

verus! {

impl DomainError {
    /// What the error says.
    pub open spec fn said(self) -> Seq<char> {
        match self {
            DomainError::InvalidUtcOffset(v) => "UTC offset "@
                + decimal(v as int)
                + " minutes is outside Android's supported range"@,
            DomainError::InvalidAmount => "amount must be finite and non-negative"@,
            DomainError::IdentityMismatch => "identity does not belong to this login session"@,
            DomainError::StaleRequest => "request sequence is stale"@,
            DomainError::AlreadyClaimed => "reward was already claimed"@,
            DomainError::AlreadyOwned => "unique content is already owned"@,
            DomainError::InsufficientBalance => "insufficient balance"@,
            DomainError::Locked => "content is locked"@,
            DomainError::InvalidStage => "invalid stage"@,
            DomainError::InsufficientEnergy => "insufficient CH3 energy"@,
        }
    }

    /// What the error says.
    pub fn message(&self) -> (text: String)
        ensures
            text@ == self.said(),
    {
        let mut text = String::new();
        match self {
            DomainError::InvalidUtcOffset(v) => {
                push_text(&mut text, "UTC offset ");
                push_decimal(&mut text, *v as i64);
                push_text(&mut text, " minutes is outside Android's supported range");
            },
            DomainError::InvalidAmount => {
                push_text(&mut text, "amount must be finite and non-negative");
            },
            DomainError::IdentityMismatch => {
                push_text(&mut text, "identity does not belong to this login session");
            },
            DomainError::StaleRequest => {
                push_text(&mut text, "request sequence is stale");
            },
            DomainError::AlreadyClaimed => {
                push_text(&mut text, "reward was already claimed");
            },
            DomainError::AlreadyOwned => {
                push_text(&mut text, "unique content is already owned");
            },
            DomainError::InsufficientBalance => {
                push_text(&mut text, "insufficient balance");
            },
            DomainError::Locked => {
                push_text(&mut text, "content is locked");
            },
            DomainError::InvalidStage => {
                push_text(&mut text, "invalid stage");
            },
            DomainError::InsufficientEnergy => {
                push_text(&mut text, "insufficient CH3 energy");
            },
        }
        proof {
            assert(text@ =~= self.said());
        }
        text
    }
}

impl ThriftError {
    /// What the error says.
    pub open spec fn said(self) -> Seq<char> {
        match self {
            ThriftError::Base64(text) => "transport base64 is invalid: "@ + text@,
            ThriftError::Io(text) => "transport or thrift I/O failed: "@ + text@,
            ThriftError::UnsupportedType(v) => "unsupported thrift type "@ + decimal(v as int),
            ThriftError::InvalidSize(v) => "invalid collection size "@ + decimal(v as int),
            ThriftError::TrailingBytes(v) => "trailing thrift bytes: "@ + decimal(v as int),
            ThriftError::EmptyPayload => "decoded thrift payload is empty"@,
            ThriftError::PayloadTooLarge => "decompressed payload exceeds 32 MiB"@,
        }
    }

    /// What the error says.
    pub fn message(&self) -> (text: String)
        ensures
            text@ == self.said(),
    {
        let mut text = String::new();
        match self {
            ThriftError::Base64(why) => {
                push_text(&mut text, "transport base64 is invalid: ");
                push_text(&mut text, why.as_str());
            },
            ThriftError::Io(why) => {
                push_text(&mut text, "transport or thrift I/O failed: ");
                push_text(&mut text, why.as_str());
            },
            ThriftError::UnsupportedType(v) => {
                push_text(&mut text, "unsupported thrift type ");
                push_decimal(&mut text, *v as i64);
            },
            ThriftError::InvalidSize(v) => {
                push_text(&mut text, "invalid collection size ");
                push_decimal(&mut text, *v as i64);
            },
            ThriftError::TrailingBytes(v) => {
                push_text(&mut text, "trailing thrift bytes: ");
                push_digits(&mut text, *v as u64);
            },
            ThriftError::EmptyPayload => {
                push_text(&mut text, "decoded thrift payload is empty");
            },
            ThriftError::PayloadTooLarge => {
                push_text(&mut text, "decompressed payload exceeds 32 MiB");
            },
        }
        proof {
            assert(text@ =~= self.said());
        }
        text
    }
}

impl ProtocolEnvelopeError {
    /// What the error says.
    pub open spec fn said(self) -> Seq<char> {
        match self {
            ProtocolEnvelopeError::Thrift(e) => e.said(),
            ProtocolEnvelopeError::MissingCall => "request is missing Call field 1"@,
            ProtocolEnvelopeError::MissingData => "request is missing Data struct field 2"@,
            ProtocolEnvelopeError::CallMismatch {
                expected,
                actual,
            } => "request call "@ + actual@ + " does not match route call "@ + expected@,
            ProtocolEnvelopeError::MissingWire(name) => "RPC "@ + name@ + " has no wire candidate"@,
            ProtocolEnvelopeError::MissingType(name) => "wire type "@
                + name@
                + " is not present in the protocol schema"@,
            ProtocolEnvelopeError::RecursionLimit(name) =>
                "wire type recursion exceeded the safety limit at "@ + name@,
            ProtocolEnvelopeError::ExpectedStruct(name) => "wire type "@
                + name@
                + " is not a struct"@,
            ProtocolEnvelopeError::UnknownField {
                wire_type,
                field,
            } => "field "@ + field@ + " is not present in wire type "@ + wire_type@,
        }
    }

    /// What the error says.
    pub fn message(&self) -> (text: String)
        ensures
            text@ == self.said(),
    {
        let mut text = String::new();
        match self {
            ProtocolEnvelopeError::Thrift(e) => {
                push_text(&mut text, e.message().as_str());
            },
            ProtocolEnvelopeError::MissingCall => {
                push_text(&mut text, "request is missing Call field 1");
            },
            ProtocolEnvelopeError::MissingData => {
                push_text(&mut text, "request is missing Data struct field 2");
            },
            ProtocolEnvelopeError::CallMismatch { expected, actual } => {
                push_text(&mut text, "request call ");
                push_text(&mut text, actual.as_str());
                push_text(&mut text, " does not match route call ");
                push_text(&mut text, expected.as_str());
            },
            ProtocolEnvelopeError::MissingWire(name) => {
                push_text(&mut text, "RPC ");
                push_text(&mut text, name.as_str());
                push_text(&mut text, " has no wire candidate");
            },
            ProtocolEnvelopeError::MissingType(name) => {
                push_text(&mut text, "wire type ");
                push_text(&mut text, name.as_str());
                push_text(&mut text, " is not present in the protocol schema");
            },
            ProtocolEnvelopeError::RecursionLimit(name) => {
                push_text(&mut text, "wire type recursion exceeded the safety limit at ");
                push_text(&mut text, name.as_str());
            },
            ProtocolEnvelopeError::ExpectedStruct(name) => {
                push_text(&mut text, "wire type ");
                push_text(&mut text, name.as_str());
                push_text(&mut text, " is not a struct");
            },
            ProtocolEnvelopeError::UnknownField { wire_type, field } => {
                push_text(&mut text, "field ");
                push_text(&mut text, field.as_str());
                push_text(&mut text, " is not present in wire type ");
                push_text(&mut text, wire_type.as_str());
            },
        }
        proof {
            assert(text@ =~= self.said());
        }
        text
    }
}

impl MasterDataError {
    /// What the error says.
    pub open spec fn said(self) -> Seq<char> {
        match self {
            MasterDataError::UnsupportedSchema { actual, expected } => "master.sqlite schema "@
                + decimal(actual as int)
                + " is not supported (expected "@
                + decimal(expected as int)
                + ")"@,
            MasterDataError::Integrity(report) => "master.sqlite failed integrity_check: "@
                + report@,
            MasterDataError::MissingTable(name) => "master.sqlite is missing required table "@
                + name@,
        }
    }

    /// What the error says.
    pub fn message(&self) -> (text: String)
        ensures
            text@ == self.said(),
    {
        let mut text = String::new();
        match self {
            MasterDataError::UnsupportedSchema { actual, expected } => {
                push_text(&mut text, "master.sqlite schema ");
                push_decimal(&mut text, *actual as i64);
                push_text(&mut text, " is not supported (expected ");
                push_decimal(&mut text, *expected as i64);
                push_text(&mut text, ")");
            },
            MasterDataError::Integrity(report) => {
                push_text(&mut text, "master.sqlite failed integrity_check: ");
                push_text(&mut text, report.as_str());
            },
            MasterDataError::MissingTable(name) => {
                push_text(&mut text, "master.sqlite is missing required table ");
                push_text(&mut text, name);
            },
        }
        proof {
            assert(text@ =~= self.said());
        }
        text
    }
}

impl SqlFault {
    /// What the error says.
    pub open spec fn said(self) -> Seq<char> {
        match self {
            SqlFault::NoRows => "Query returned no rows"@,
            SqlFault::OutOfRange => "Integer out of range"@,
            SqlFault::Integral { value, index } => "Integer "@
                + decimal(value as int)
                + " out of range at index "@
                + decimal(index as int),
            SqlFault::ForeignKey => "FOREIGN KEY constraint failed"@,
            SqlFault::Taken => "UNIQUE constraint failed: login_sessions.nonce"@,
        }
    }

    /// What the error says.
    pub fn message(&self) -> (text: String)
        ensures
            text@ == self.said(),
    {
        let mut text = String::new();
        match self {
            SqlFault::NoRows => {
                push_text(&mut text, "Query returned no rows");
            },
            SqlFault::OutOfRange => {
                push_text(&mut text, "Integer out of range");
            },
            SqlFault::Integral { value, index } => {
                push_text(&mut text, "Integer ");
                push_decimal(&mut text, *value);
                push_text(&mut text, " out of range at index ");
                push_decimal(&mut text, *index);
            },
            SqlFault::ForeignKey => {
                push_text(&mut text, "FOREIGN KEY constraint failed");
            },
            SqlFault::Taken => {
                push_text(&mut text, "UNIQUE constraint failed: login_sessions.nonce");
            },
        }
        proof {
            assert(text@ =~= self.said());
        }
        text
    }
}

impl StoreError {
    /// What the error says.
    pub open spec fn said(self) -> Seq<char> {
        match self {
            StoreError::Sql(e) => e.said(),
            StoreError::Domain(e) => e.said(),
            StoreError::MissingSlot(v) => "slot "@ + decimal(v as int) + " does not exist"@,
            StoreError::NoActiveSlot => "no active save slot"@,
            StoreError::MissingMail(v) => "mail "@ + decimal(v as int) + " does not exist"@,
            StoreError::MailAlreadyClaimed(v) => "mail "@
                + decimal(v as int)
                + " was already claimed"@,
            StoreError::InvalidReplay(why) => "mutation replay payload is invalid: "@ + why@,
            StoreError::IdempotencyConflict =>
                "idempotency key was reused for a different request"@,
            StoreError::ActiveSlot(v) => "active or pending slot "@
                + decimal(v as int)
                + " cannot be deleted"@,
            StoreError::Integrity(report) => "database integrity check failed: "@ + report@,
            StoreError::UnsupportedSchema { actual, expected } => "save database schema "@
                + decimal(actual as int)
                + " is unsupported (expected "@
                + decimal(expected as int)
                + "); this development build intentionally does not migrate test saves"@,
            StoreError::UnsupportedReward(f) => "reward type "@
                + f.described()
                + " is not supported by the memorial inventory"@,
            StoreError::Unreadable(f) =>
                "Conversion error from type Text at index: 0, reward type "@
                + f.described()
                + " is not supported by the memorial inventory"@,
        }
    }

    /// What the error says.
    pub fn message(&self) -> (text: String)
        ensures
            text@ == self.said(),
    {
        let mut text = String::new();
        match self {
            StoreError::Sql(e) => {
                push_text(&mut text, e.message().as_str());
            },
            StoreError::Domain(e) => {
                push_text(&mut text, e.message().as_str());
            },
            StoreError::MissingSlot(v) => {
                push_text(&mut text, "slot ");
                push_decimal(&mut text, *v as i64);
                push_text(&mut text, " does not exist");
            },
            StoreError::NoActiveSlot => {
                push_text(&mut text, "no active save slot");
            },
            StoreError::MissingMail(v) => {
                push_text(&mut text, "mail ");
                push_decimal(&mut text, *v as i64);
                push_text(&mut text, " does not exist");
            },
            StoreError::MailAlreadyClaimed(v) => {
                push_text(&mut text, "mail ");
                push_decimal(&mut text, *v as i64);
                push_text(&mut text, " was already claimed");
            },
            StoreError::InvalidReplay(why) => {
                push_text(&mut text, "mutation replay payload is invalid: ");
                push_text(&mut text, why.as_str());
            },
            StoreError::IdempotencyConflict => {
                push_text(&mut text, "idempotency key was reused for a different request");
            },
            StoreError::ActiveSlot(v) => {
                push_text(&mut text, "active or pending slot ");
                push_decimal(&mut text, *v as i64);
                push_text(&mut text, " cannot be deleted");
            },
            StoreError::Integrity(report) => {
                push_text(&mut text, "database integrity check failed: ");
                push_text(&mut text, report.as_str());
            },
            StoreError::UnsupportedSchema { actual, expected } => {
                push_text(&mut text, "save database schema ");
                push_decimal(&mut text, *actual as i64);
                push_text(&mut text, " is unsupported (expected ");
                push_decimal(&mut text, *expected as i64);
                push_text(
                    &mut text,
                    "); this development build intentionally does not migrate test saves",
                );
            },
            StoreError::UnsupportedReward(f) => {
                push_text(&mut text, "reward type ");
                push_text(&mut text, f.text().as_str());
                push_text(&mut text, " is not supported by the memorial inventory");
            },
            StoreError::Unreadable(f) => {
                push_text(
                    &mut text,
                    "Conversion error from type Text at index: 0, reward type ",
                );
                push_text(&mut text, f.text().as_str());
                push_text(&mut text, " is not supported by the memorial inventory");
            },
        }
        proof {
            assert(text@ =~= self.said());
        }
        text
    }
}

} // verus!
