//! The numbers under which messages of one kind travel.

use crate::protocol::MAX_CHANNEL_ID;
use vstd::prelude::*;

verus! {

/// `String::push` appends one character.
pub assume_specification[ String::push ](s: &mut String, c: char)
    ensures
        final(s)@ == old(s)@.push(c),
;

/// The decimal digits of `n`.
pub open spec fn decimal(n: nat) -> Seq<char>
    decreases n,
{
    if n < 10 {
        seq![(48 + n) as char]
    } else {
        decimal(n / 10).push((48 + n % 10) as char)
    }
}

/// The number that decimal digits spell.
pub open spec fn spelled(digits: Seq<char>) -> int
    decreases digits.len(),
{
    if digits.len() == 0 {
        0
    } else {
        10 * spelled(digits.drop_last()) + (digits.last() as int - 48)
    }
}

/// The decimal digits of a number spell that number, are all digits, and do not start with a zero
/// unless there is but one.
pub proof fn lemma_decimal_spells(n: nat)
    ensures
        spelled(decimal(n)) == n,
        decimal(n).len() > 0,
        forall|i: int|
            0 <= i < decimal(n).len() ==> '0' <= #[trigger] decimal(n)[i] && decimal(n)[i] <= '9',
        decimal(n).len() > 1 ==> decimal(n)[0] != '0',
    decreases n,
{
    reveal_with_fuel(spelled, 2);
    if n < 10 {
        assert(decimal(n).drop_last() =~= Seq::empty());
    } else {
        lemma_decimal_spells(n / 10);
        assert(decimal(n).drop_last() =~= decimal(n / 10));
        assert forall|i: int| 0 <= i < decimal(n).len() implies '0' <= #[trigger] decimal(n)[i]
            && decimal(n)[i] <= '9' by {
            if i < decimal(n / 10).len() {
                assert(decimal(n)[i] == decimal(n / 10)[i]);
            }
        }
        if decimal(n / 10).len() == 1 {
            assert(n / 10 < 10) by {
                if n / 10 >= 10 {
                    lemma_decimal_spells(n / 10 / 10);
                    assert(decimal(n / 10).len() == decimal(n / 10 / 10).len() + 1);
                }
            }
        }
    }
}

/// Appends the decimal digits of `n` to `text`.
fn push_decimal(text: &mut String, n: u8)
    ensures
        final(text)@ == old(text)@ + decimal(n as nat),
    decreases n,
{
    if n >= 10 {
        push_decimal(text, n / 10);
    }
    let digit: u8 = 48 + n % 10;
    text.push(digit as char);
    assert(text@ =~= old(text)@ + decimal(n as nat));
}

/// The number of a channel, at most `MAX_CHANNEL_ID`.
#[derive(Debug, Clone, Copy, PartialEq, Eq, Hash, Structural)]
pub struct ChannelId(u8);

impl ChannelId {
    #[verifier::type_invariant]
    closed spec fn in_range(self) -> bool {
        self.0 <= MAX_CHANNEL_ID
    }

    /// The number of the channel.
    pub closed spec fn number(self) -> u8 {
        self.0
    }

    /// The channel numbered `id`.
    pub closed spec fn of(id: u8) -> Self {
        ChannelId(id)
    }

    /// The channel numbered `id`.
    pub fn new(id: u8) -> (res: Self)
        requires
            id <= MAX_CHANNEL_ID,
        ensures
            res == Self::of(id),
            res.number() == id,
    {
        ChannelId(id)
    }

    /// The channel numbered `id`, if there is one.
    pub fn try_new(id: u8) -> (res: Option<Self>)
        ensures
            res is Some <==> id <= MAX_CHANNEL_ID,
            res is Some ==> res->0 == Self::of(id) && res->0.number() == id,
    {
        if id <= MAX_CHANNEL_ID {
            Some(ChannelId(id))
        } else {
            None
        }
    }

    /// The number of the channel.
    pub fn value(self) -> (res: u8)
        ensures
            res == self.number(),
            res <= MAX_CHANNEL_ID,
    {
        proof {
            use_type_invariant(&self);
        }
        self.0
    }

    /// How the channel is named in messages to people, such as `Channel(5)`.
    pub fn label(&self) -> (res: String)
        ensures
            res@ == "Channel("@ + decimal(self.number() as nat) + ")"@,
    {
        let mut text = "Channel(".to_owned();
        push_decimal(&mut text, self.0);
        text.push(')');
        proof {
            reveal_strlit(")");
            assert(text@ =~= "Channel("@ + decimal(self.number() as nat) + ")"@);
        }
        text
    }

    /// A channel and its number determine each other.
    pub proof fn lemma_number_roundtrip(self, id: u8)
        ensures
            Self::of(self.number()) == self,
            Self::of(id).number() == id,
    {
    }
}

} // verus!
