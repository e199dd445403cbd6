//! Why the store refuses a request.
use crate::domain::{ContentKind, CurrencyKind, DomainError};
use crate::text::{decimal, push_decimal, push_text};
use vstd::prelude::*;

verus! {

/// A reward, or something named by a request, that the store does not know.
#[derive(Debug)]
pub enum RewardFault {
    /// A type of reward.
    Kind(i16),
    /// A consumable reward.
    Consume(i64),
    /// A consumable reward that adds to another balance.
    ConsumeOf(CurrencyKind, i32),
    /// A balance that no reward adds to.
    Currency(CurrencyKind),
    /// A kind of content that no reward gives.
    Content(ContentKind),
    /// Content in the mail without an id.
    Unidentified(ContentKind),
    /// A consumable reward that mail cannot carry.
    MailCurrency(i32),
    /// A type of reward that mail cannot carry.
    MailKind(i16),
    /// An owned costume without a known bonus.
    CostumeBonus(i64),
    /// A channel without fans.
    FanArea(i32),
    /// A season of the pass.
    PassSeason(i64),
    /// A kind of claim.
    Named(String),
}

/// What goes wrong in the tables themselves.
#[derive(Clone, Copy, Debug, PartialEq, Eq, Structural)]
pub enum SqlFault {
    /// A row that has to be there is not.
    NoRows,
    /// A number leaves the range of its column.
    OutOfRange,
    /// A number in a column of an answer is beyond what is read from there.
    Integral { value: i64, index: i64 },
    /// A row would belong to a slot that is not there.
    ForeignKey,
    /// The number of a login is in use.
    Taken,
}

/// Why the store refuses a request.
#[derive(Debug)]
pub enum StoreError {
    Sql(SqlFault),
    Domain(DomainError),
    /// There is no such slot.
    MissingSlot(i64),
    /// No slot was ever made active.
    NoActiveSlot,
    /// There is no such mail.
    MissingMail(i64),
    /// The mail was claimed before.
    MailAlreadyClaimed(i64),
    /// What was recorded for a request is not an answer to it, and why.
    InvalidReplay(String),
    /// A key was used for another request.
    IdempotencyConflict,
    /// The slot is in use or about to be.
    ActiveSlot(i64),
    /// The file is damaged.
    Integrity(String),
    /// The file belongs to another version.
    UnsupportedSchema { actual: i64, expected: i64 },
    UnsupportedReward(RewardFault),
    /// A reward in a stored mail cannot be read.
    Unreadable(RewardFault),
}

/// What is wrong with a recorded answer of another kind.
pub open spec fn misfit() -> Seq<char> {
    "the recorded answer is of another kind"@
}

/// The error for a recorded answer of another kind.
pub fn misfitting() -> (e: StoreError)
    ensures
        e matches StoreError::InvalidReplay(text) && text@ == misfit(),
{
    StoreError::InvalidReplay("the recorded answer is of another kind".to_owned())
}

/// The name of a kind of content with a capital.
pub open spec fn content_title(kind: ContentKind) -> Seq<char> {
    match kind {
        ContentKind::Character => "Character"@,
        ContentKind::Costume => "Costume"@,
        ContentKind::Guitar => "Guitar"@,
        ContentKind::Music => "Music"@,
        ContentKind::Skill => "Skill"@,
        ContentKind::Unit => "Unit"@,
        ContentKind::Follower => "Follower"@,
        ContentKind::Prop => "Prop"@,
        ContentKind::Buff => "Buff"@,
        ContentKind::Gift => "Gift"@,
    }
}

fn push_content_title(out: &mut String, kind: ContentKind)
    ensures
        final(out)@ == old(out)@ + content_title(kind),
{
    match kind {
        ContentKind::Character => push_text(out, "Character"),
        ContentKind::Costume => push_text(out, "Costume"),
        ContentKind::Guitar => push_text(out, "Guitar"),
        ContentKind::Music => push_text(out, "Music"),
        ContentKind::Skill => push_text(out, "Skill"),
        ContentKind::Unit => push_text(out, "Unit"),
        ContentKind::Follower => push_text(out, "Follower"),
        ContentKind::Prop => push_text(out, "Prop"),
        ContentKind::Buff => push_text(out, "Buff"),
        ContentKind::Gift => push_text(out, "Gift"),
    }
}

impl RewardFault {
    /// What a message names.
    pub open spec fn described(self) -> Seq<char> {
        match self {
            RewardFault::Kind(v) => "type:"@ + decimal(v as int),
            RewardFault::Consume(v) => "consume:"@ + decimal(v as int),
            RewardFault::ConsumeOf(kind, v) => "consume:"@ + kind.name() + ":"@ + decimal(v as int),
            RewardFault::Currency(kind) => kind.name(),
            RewardFault::Content(kind) => content_title(kind),
            RewardFault::Unidentified(kind) => kind.name(),
            RewardFault::MailCurrency(v) => "mail-currency:"@ + decimal(v as int),
            RewardFault::MailKind(v) => "mail-type:"@ + decimal(v as int),
            RewardFault::CostumeBonus(v) => "missing costume bonus:"@ + decimal(v as int),
            RewardFault::FanArea(v) => "fan area:"@ + decimal(v as int),
            RewardFault::PassSeason(v) => "pass-season:"@ + decimal(v as int),
            RewardFault::Named(name) => name@,
        }
    }

    /// What a message names.
    pub fn text(&self) -> (out: String)
        ensures
            out@ == self.described(),
    {
        let mut out = String::new();
        match self {
            RewardFault::Kind(v) => {
                push_text(&mut out, "type:");
                push_decimal(&mut out, *v as i64);
            },
            RewardFault::Consume(v) => {
                push_text(&mut out, "consume:");
                push_decimal(&mut out, *v);
            },
            RewardFault::ConsumeOf(kind, v) => {
                push_text(&mut out, "consume:");
                push_text(&mut out, kind.key());
                push_text(&mut out, ":");
                push_decimal(&mut out, *v as i64);
            },
            RewardFault::Currency(kind) => {
                push_text(&mut out, kind.key());
            },
            RewardFault::Content(kind) => {
                push_content_title(&mut out, *kind);
            },
            RewardFault::Unidentified(kind) => {
                push_text(&mut out, crate::domain::content_key(*kind));
            },
            RewardFault::MailCurrency(v) => {
                push_text(&mut out, "mail-currency:");
                push_decimal(&mut out, *v as i64);
            },
            RewardFault::MailKind(v) => {
                push_text(&mut out, "mail-type:");
                push_decimal(&mut out, *v as i64);
            },
            RewardFault::CostumeBonus(v) => {
                push_text(&mut out, "missing costume bonus:");
                push_decimal(&mut out, *v);
            },
            RewardFault::FanArea(v) => {
                push_text(&mut out, "fan area:");
                push_decimal(&mut out, *v as i64);
            },
            RewardFault::PassSeason(v) => {
                push_text(&mut out, "pass-season:");
                push_decimal(&mut out, *v);
            },
            RewardFault::Named(name) => {
                push_text(&mut out, name.as_str());
            },
        }
        proof {
            assert(out@ =~= self.described());
        }
        out
    }
}

} // verus!
