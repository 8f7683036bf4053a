//! The values that a template hands to a helper, as far as the helpers look into them.

use vstd::prelude::*;

verus! {

/// One named member of an object, or one named argument of a call.
#[derive(Debug, PartialEq, Eq)]
pub struct Member {
    pub key: String,
    pub value: Value,
}

/// A template value. An object is the list of its members in the order in which they are
/// walked; where a key occurs twice, the later member is the one that a lookup finds.
#[derive(Debug, PartialEq, Eq)]
pub enum Value {
    Null,
    Bool(bool),
    /// A number, as it is written in decimal.
    Number(String),
    Text(String),
    Array(Vec<Value>),
    Object(Vec<Member>),
}

/// The value of the last member with the given key.
pub open spec fn find(members: Seq<Member>, key: Seq<char>) -> Option<Value>
    decreases members.len(),
{
    if members.len() == 0 {
        None
    } else if members.last().key@ == key {
        Some(members.last().value)
    } else {
        find(members.drop_last(), key)
    }
}

/// Looks up a key among the members.
pub fn lookup<'a>(members: &'a Vec<Member>, key: &str) -> (r: Option<&'a Value>)
    ensures
        match r {
            Some(value) => find(members@, key@) == Some(*value),
            None => find(members@, key@) is None,
        },
{
    let wanted = key.to_owned();
    let mut i: usize = members.len();
    proof {
        assert(members@.take(members@.len() as int) == members@);
    }
    while i > 0
        invariant
            i <= members@.len(),
            wanted@ == key@,
            find(members@, key@) == find(members@.take(i as int), key@),
        decreases i,
    {
        proof {
            assert(members@.take(i as int).drop_last() == members@.take(i - 1));
        }
        i = i - 1;
        if members[i].key == wanted {
            return Some(&members[i].value);
        }
    }
    None
}

} // verus!
