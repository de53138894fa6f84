//! The data carried through the system: decoded account updates, the
//! envelopes delivered to subscribers, and the subscription requests that
//! clients send.

use vstd::prelude::*;

verus! {

/// Tag naming which decoded shape an update's payload has.  The set is
/// exhaustive: a payload outside it is rejected where tags are parsed.
#[derive(Clone, Copy, Debug, PartialEq, Eq, Structural)]
pub enum AccountVariant {
    Pool,
    Position,
    Config,
    ClaimFeeOperator,
    TokenBadge,
    Vesting,
}

/// Which tier produced a delivered state: the cache, the durable store, or
/// a live broadcast.
#[derive(Clone, Copy, Debug, PartialEq, Eq, Structural)]
pub enum Source {
    Cache,
    Database,
    Realtime,
}

/// The tag string of a variant, as it is stored and sent on the wire.
pub open spec fn variant_tag_view(v: AccountVariant) -> Seq<char> {
    match v {
        AccountVariant::Pool => "Pool"@,
        AccountVariant::Position => "Position"@,
        AccountVariant::Config => "Config"@,
        AccountVariant::ClaimFeeOperator => "ClaimFeeOperator"@,
        AccountVariant::TokenBadge => "TokenBadge"@,
        AccountVariant::Vesting => "Vesting"@,
    }
}

/// The variant a tag string names, if any.
pub open spec fn variant_from_tag_view(s: Seq<char>) -> Option<AccountVariant> {
    if s == "Pool"@ {
        Some(AccountVariant::Pool)
    } else if s == "Position"@ {
        Some(AccountVariant::Position)
    } else if s == "Config"@ {
        Some(AccountVariant::Config)
    } else if s == "ClaimFeeOperator"@ {
        Some(AccountVariant::ClaimFeeOperator)
    } else if s == "TokenBadge"@ {
        Some(AccountVariant::TokenBadge)
    } else if s == "Vesting"@ {
        Some(AccountVariant::Vesting)
    } else {
        None
    }
}

/// The wire word of a delivery source.
pub open spec fn source_tag_view(s: Source) -> Seq<char> {
    match s {
        Source::Cache => "cache"@,
        Source::Database => "database"@,
        Source::Realtime => "realtime"@,
    }
}

/// Equality of two string slices, decided by value.
pub fn str_eq(a: &str, b: &str) -> (r: bool)
    ensures
        r == (a@ == b@),
{
    let sa: String = a.to_owned();
    let sb: String = b.to_owned();
    sa == sb
}

impl AccountVariant {
    /// The tag string of this variant.
    pub fn tag(&self) -> (r: &'static str)
        ensures
            r@ == variant_tag_view(*self),
    {
        match self {
            AccountVariant::Pool => "Pool",
            AccountVariant::Position => "Position",
            AccountVariant::Config => "Config",
            AccountVariant::ClaimFeeOperator => "ClaimFeeOperator",
            AccountVariant::TokenBadge => "TokenBadge",
            AccountVariant::Vesting => "Vesting",
        }
    }

    /// Parses a tag string; an unrecognized tag is rejected.
    pub fn from_tag(s: &str) -> (r: Option<AccountVariant>)
        ensures
            r == variant_from_tag_view(s@),
    {
        if str_eq(s, "Pool") {
            Some(AccountVariant::Pool)
        } else if str_eq(s, "Position") {
            Some(AccountVariant::Position)
        } else if str_eq(s, "Config") {
            Some(AccountVariant::Config)
        } else if str_eq(s, "ClaimFeeOperator") {
            Some(AccountVariant::ClaimFeeOperator)
        } else if str_eq(s, "TokenBadge") {
            Some(AccountVariant::TokenBadge)
        } else if str_eq(s, "Vesting") {
            Some(AccountVariant::Vesting)
        } else {
            None
        }
    }
}

/// Parsing a variant's own tag gives the variant back: the tag mapping is
/// faithful, so nothing stored under a tag can come back as another shape.
pub proof fn lemma_variant_tag_roundtrip(v: AccountVariant)
    ensures
        variant_from_tag_view(variant_tag_view(v)) == Some(v),
{
    reveal_strlit("Pool");
    reveal_strlit("Position");
    reveal_strlit("Config");
    reveal_strlit("ClaimFeeOperator");
    reveal_strlit("TokenBadge");
    reveal_strlit("Vesting");
    match v {
        AccountVariant::Pool => {
            assert(variant_from_tag_view("Pool"@) == Some(AccountVariant::Pool));
        },
        AccountVariant::Position => {
            assert("Position"@ != "Pool"@) by { assert("Position"@.len() == 8); assert("Pool"@.len() == 4); }
            assert(variant_from_tag_view("Position"@) == Some(AccountVariant::Position));
        },
        AccountVariant::Config => {
            assert("Config"@ != "Pool"@) by { assert("Config"@.len() == 6); assert("Pool"@.len() == 4); }
            assert("Config"@ != "Position"@) by { assert("Config"@.len() == 6); assert("Position"@.len() == 8); }
            assert(variant_from_tag_view("Config"@) == Some(AccountVariant::Config));
        },
        AccountVariant::ClaimFeeOperator => {
            assert("ClaimFeeOperator"@ != "Pool"@) by { assert("ClaimFeeOperator"@.len() == 16); assert("Pool"@.len() == 4); }
            assert("ClaimFeeOperator"@ != "Position"@) by { assert("ClaimFeeOperator"@.len() == 16); assert("Position"@.len() == 8); }
            assert("ClaimFeeOperator"@ != "Config"@) by { assert("ClaimFeeOperator"@.len() == 16); assert("Config"@.len() == 6); }
            assert(variant_from_tag_view("ClaimFeeOperator"@) == Some(
                AccountVariant::ClaimFeeOperator,
            ));
        },
        AccountVariant::TokenBadge => {
            assert("TokenBadge"@ != "Pool"@) by { assert("TokenBadge"@.len() == 10); assert("Pool"@.len() == 4); }
            assert("TokenBadge"@ != "Position"@) by { assert("TokenBadge"@.len() == 10); assert("Position"@.len() == 8); }
            assert("TokenBadge"@ != "Config"@) by { assert("TokenBadge"@.len() == 10); assert("Config"@.len() == 6); }
            assert("TokenBadge"@ != "ClaimFeeOperator"@) by { assert("TokenBadge"@.len() == 10); assert("ClaimFeeOperator"@.len() == 16); }
            assert(variant_from_tag_view("TokenBadge"@) == Some(AccountVariant::TokenBadge));
        },
        AccountVariant::Vesting => {
            assert("Vesting"@ != "Pool"@) by { assert("Vesting"@.len() == 7); assert("Pool"@.len() == 4); }
            assert("Vesting"@ != "Position"@) by { assert("Vesting"@.len() == 7); assert("Position"@.len() == 8); }
            assert("Vesting"@ != "Config"@) by { assert("Vesting"@.len() == 7); assert("Config"@.len() == 6); }
            assert("Vesting"@ != "ClaimFeeOperator"@) by { assert("Vesting"@.len() == 7); assert("ClaimFeeOperator"@.len() == 16); }
            assert("Vesting"@ != "TokenBadge"@) by { assert("Vesting"@.len() == 7); assert("TokenBadge"@.len() == 10); }
            assert(variant_from_tag_view("Vesting"@) == Some(AccountVariant::Vesting));
        },
    }
}

impl Source {
    /// The wire word for this source.
    pub fn as_str(&self) -> (r: &'static str)
        ensures
            r@ == source_tag_view(*self),
    {
        match self {
            Source::Cache => "cache",
            Source::Database => "database",
            Source::Realtime => "realtime",
        }
    }
}

/// Mathematical value of one persisted update.
#[verifier::ext_equal]
pub ghost struct UpdateModel {
    pub id: u64,
    pub pubkey: Seq<char>,
    pub slot: u64,
    pub account_type: AccountVariant,
    pub owner: Seq<char>,
    pub lamports: u64,
    pub data_json: Seq<char>,
    pub created_at: i64,
}

/// One persisted observation of an entity's decoded state.  `id` is
/// assigned by the store on insert; `created_at` is the time of
/// persistence; `slot` orders the updates of one key.
#[derive(Debug)]
pub struct AccountUpdate {
    pub id: u64,
    pub pubkey: String,
    pub slot: u64,
    pub account_type: AccountVariant,
    pub owner: String,
    pub lamports: u64,
    pub data_json: String,
    pub created_at: i64,
}

impl View for AccountUpdate {
    type V = UpdateModel;

    open spec fn view(&self) -> UpdateModel {
        UpdateModel {
            id: self.id,
            pubkey: self.pubkey@,
            slot: self.slot,
            account_type: self.account_type,
            owner: self.owner@,
            lamports: self.lamports,
            data_json: self.data_json@,
            created_at: self.created_at,
        }
    }
}

impl AccountUpdate {
    /// A copy equal to this update.
    pub fn duplicate(&self) -> (r: AccountUpdate)
        ensures
            r == *self,
    {
        AccountUpdate {
            id: self.id,
            pubkey: self.pubkey.clone(),
            slot: self.slot,
            account_type: self.account_type,
            owner: self.owner.clone(),
            lamports: self.lamports,
            data_json: self.data_json.clone(),
            created_at: self.created_at,
        }
    }
}

impl PartialEq for AccountUpdate {
    fn eq(&self, other: &AccountUpdate) -> (r: bool) {
        self.id == other.id && self.pubkey == other.pubkey && self.slot == other.slot
            && self.account_type == other.account_type && self.owner == other.owner
            && self.lamports == other.lamports && self.data_json == other.data_json
            && self.created_at == other.created_at
    }
}

impl vstd::std_specs::cmp::PartialEqSpecImpl for AccountUpdate {
    open spec fn obeys_eq_spec() -> bool {
        true
    }

    open spec fn eq_spec(&self, other: &AccountUpdate) -> bool {
        self@ == other@
    }
}

/// Mathematical value of a candidate update, before the store assigns its
/// identity and timestamp.
#[verifier::ext_equal]
pub ghost struct NewUpdateModel {
    pub pubkey: Seq<char>,
    pub slot: u64,
    pub account_type: AccountVariant,
    pub owner: Seq<char>,
    pub lamports: u64,
    pub data_json: Seq<char>,
}

/// A decoded update as delivered by the upstream pipeline, not yet
/// persisted.
#[derive(Debug)]
pub struct NewAccountUpdate {
    pub pubkey: String,
    pub slot: u64,
    pub account_type: AccountVariant,
    pub owner: String,
    pub lamports: u64,
    pub data_json: String,
}

impl View for NewAccountUpdate {
    type V = NewUpdateModel;

    open spec fn view(&self) -> NewUpdateModel {
        NewUpdateModel {
            pubkey: self.pubkey@,
            slot: self.slot,
            account_type: self.account_type,
            owner: self.owner@,
            lamports: self.lamports,
            data_json: self.data_json@,
        }
    }
}

impl NewAccountUpdate {
    /// A copy equal to this candidate.
    pub fn duplicate(&self) -> (r: NewAccountUpdate)
        ensures
            r == *self,
    {
        NewAccountUpdate {
            pubkey: self.pubkey.clone(),
            slot: self.slot,
            account_type: self.account_type,
            owner: self.owner.clone(),
            lamports: self.lamports,
            data_json: self.data_json.clone(),
        }
    }
}

/// The persisted update a candidate becomes under a given identity and
/// persistence time.
pub open spec fn stored_from(nu: NewUpdateModel, id: u64, at: i64) -> UpdateModel {
    UpdateModel {
        id: id,
        pubkey: nu.pubkey,
        slot: nu.slot,
        account_type: nu.account_type,
        owner: nu.owner,
        lamports: nu.lamports,
        data_json: nu.data_json,
        created_at: at,
    }
}

/// Mathematical value of one delivery envelope.
#[verifier::ext_equal]
pub ghost struct EnvelopeModel {
    pub pubkey: Seq<char>,
    pub account: UpdateModel,
    pub source: Source,
}

/// One message queued for a subscriber: the key, the update, and which
/// tier produced it.
#[derive(Debug)]
pub struct AccountUpdateMessage {
    pub pubkey: String,
    pub account: AccountUpdate,
    pub source: Source,
}

impl View for AccountUpdateMessage {
    type V = EnvelopeModel;

    open spec fn view(&self) -> EnvelopeModel {
        EnvelopeModel { pubkey: self.pubkey@, account: self.account@, source: self.source }
    }
}

impl AccountUpdateMessage {
    /// A copy equal to this envelope.
    pub fn duplicate(&self) -> (r: AccountUpdateMessage)
        ensures
            r == *self,
    {
        AccountUpdateMessage {
            pubkey: self.pubkey.clone(),
            account: self.account.duplicate(),
            source: self.source,
        }
    }
}

impl PartialEq for AccountUpdateMessage {
    fn eq(&self, other: &AccountUpdateMessage) -> (r: bool) {
        self.pubkey == other.pubkey && self.account == other.account
            && self.source == other.source
    }
}

impl vstd::std_specs::cmp::PartialEqSpecImpl for AccountUpdateMessage {
    open spec fn obeys_eq_spec() -> bool {
        true
    }

    open spec fn eq_spec(&self, other: &AccountUpdateMessage) -> bool {
        self@ == other@
    }
}

/// Mathematical value of a subscription request.
#[verifier::ext_equal]
pub ghost struct RequestModel {
    pub action: Seq<char>,
    pub pubkey: Seq<char>,
}

/// A client's wish to start or stop following a key: `action` is
/// "subscribe" or "unsubscribe"; anything else is ignored.
#[derive(Debug)]
pub struct SubscriptionRequest {
    pub action: String,
    pub pubkey: String,
}

impl View for SubscriptionRequest {
    type V = RequestModel;

    open spec fn view(&self) -> RequestModel {
        RequestModel { action: self.action@, pubkey: self.pubkey@ }
    }
}

} // verus!
