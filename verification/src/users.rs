//! The users that the store names.

use vstd::prelude::*;
use vstd::string::*;

use crate::text::{decimal, parse_number, parsed_number};

verus! {

/// The number of a stored user: 0 where what is stored is no number.
pub open spec fn user_number(user_id: Seq<char>) -> u64 {
    match parsed_number(user_id) {
        Some(n) => n,
        None => 0,
    }
}

/// The number of a stored user.
pub fn read_user(user_id: &str) -> (r: u64)
    ensures
        r == user_number(user_id@),
{
    match parse_number(user_id) {
        Some(n) => n,
        None => 0,
    }
}

/// How Discord writes the mention of a user.
pub open spec fn mention_of(n: u64) -> Seq<char> {
    "<@"@ + decimal(n as nat) + ">"@
}

/// `serenity::model::mention::Mentionable::mention` of a `UserId`, written out: the decimal number
/// of the user between `<@` and `>`. `UserId::new` panics on 0.
#[verifier::external_body]
fn discord_mention(user: u64) -> (r: String)
    requires
        user != 0,
    ensures
        r@ == mention_of(user),
{
    let user_id = serenity::model::id::UserId::new(user);
    serenity::model::mention::Mentionable::mention(&user_id).to_string()
}

/// Whether a stored user can be mentioned.
pub open spec fn can_mention(user_id: Seq<char>) -> bool {
    user_number(user_id) != 0
}

/// The mention of a stored user.
pub open spec fn mention_text(user_id: Seq<char>) -> Seq<char> {
    mention_of(user_number(user_id))
}

/// Whether a stored user can be mentioned.
pub fn mentionable(user_id: &str) -> (r: bool)
    ensures
        r == can_mention(user_id@),
{
    read_user(user_id) != 0
}

/// The mention of a stored user.
pub fn mention(user_id: &str) -> (r: String)
    requires
        can_mention(user_id@),
    ensures
        r@ == mention_text(user_id@),
{
    discord_mention(read_user(user_id))
}

} // verus!
