//! A two-round demonstration protocol: each party announces a random number in round 1,
//! and in round 2 adds up the numbers it received and its own.

use vstd::prelude::*;

verus! {

/// A message of the demonstration protocol.
pub struct Message {
    /// The identifier of the sending party.
    pub sender: String,
    /// The round the message belongs to.
    pub round: u8,
    /// The number carried by the message.
    pub data: u32,
}

/// The sum of the numbers carried by the first `k` messages.
pub open spec fn data_sum(messages: Seq<Message>, k: nat) -> int
    decreases k,
{
    if k == 0 {
        0
    } else {
        data_sum(messages, (k - 1) as nat) + messages[k - 1].data
    }
}

/// The state of one party: its identifier and, after round 1, its own number.
pub struct Protocol {
    party_id: String,
    own_number: Option<u32>,
}

impl Protocol {
    /// The party's identifier.
    pub closed spec fn party(&self) -> Seq<char> {
        self.party_id@
    }

    /// The party's own number, once round 1 has run.
    pub closed spec fn own(&self) -> Option<u32> {
        self.own_number
    }

    /// A party with the identifier `party_id` that has not run round 1.
    pub fn new(party_id: String) -> (p: Protocol)
        ensures
            p.party() == party_id@,
            p.own() is None,
    {
        Protocol { party_id, own_number: None }
    }

    /// Round 1: keeps `random_num` (drawn by the caller from `1..=100`) as the party's own
    /// number and returns the message that announces it.
    pub fn run_round_1(&mut self, random_num: u32) -> (m: Message)
        ensures
            final(self).party() == old(self).party(),
            final(self).own() == Some(random_num),
            m.sender@ == old(self).party(),
            m.round == 1,
            m.data == random_num,
    {
        self.own_number = Some(random_num);
        Message { sender: self.party_id.clone(), round: 1, data: random_num }
    }

    /// Round 2: the sum of the numbers of `messages` and of the party's own number (zero
    /// before round 1).
    pub fn run_round_2(&self, messages: &[Message]) -> (r: u32)
        requires
            data_sum(messages@, messages@.len()) + (match self.own() {
                Some(v) => v as int,
                None => 0,
            }) <= u32::MAX,
        ensures
            r == data_sum(messages@, messages@.len()) + (match self.own() {
                Some(v) => v as int,
                None => 0,
            }),
    {
        let own_num: u32 = match self.own_number {
            Some(v) => v,
            None => 0,
        };
        let mut sum: u32 = 0;
        let mut i: usize = 0;
        while i < messages.len()
            invariant
                i <= messages@.len(),
                sum == data_sum(messages@, i as nat),
                data_sum(messages@, messages@.len()) + own_num <= u32::MAX,
            decreases messages@.len() - i,
        {
            proof {
                lemma_data_sum_monotone(messages@, (i + 1) as nat, messages@.len());
            }
            sum = sum + messages[i].data;
            i = i + 1;
        }
        sum + own_num
    }

    /// The party's identifier.
    pub fn get_party_id(&self) -> (r: String)
        ensures
            r@ == self.party(),
    {
        self.party_id.clone()
    }

    /// The party's own number, once round 1 has run.
    pub fn get_own_number(&self) -> (r: Option<u32>)
        ensures
            r == self.own(),
    {
        self.own_number
    }
}

/// The sums of the numbers of a prefix grow with the prefix.
proof fn lemma_data_sum_monotone(messages: Seq<Message>, a: nat, b: nat)
    requires
        a <= b,
    ensures
        data_sum(messages, a) <= data_sum(messages, b),
    decreases b,
{
    if a < b {
        lemma_data_sum_monotone(messages, a, (b - 1) as nat);
    }
}

/// A message from `sender` for `round` carrying `data`.
pub fn create_message(sender: String, round: u8, data: u32) -> (m: Message)
    ensures
        m.sender@ == sender@,
        m.round == round,
        m.data == data,
{
    Message { sender, round, data }
}

} // verus!
