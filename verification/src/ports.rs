//! The output ports of the loopers: which there are, and which have to be opened
//! or closed.

use std::collections::hash_map::Entry;
use std::collections::HashMap;

use vstd::prelude::*;
use vstd::std_specs::hash::spec_keys_iter;
use vstd::std_specs::iter::IteratorSpec;
use vstd::string::StringExecFns;

verus! {

broadcast use vstd::std_specs::hash::group_hash_axioms;

/// A change of the ports that is asked for.
#[derive(Debug, PartialEq, Eq)]
pub enum ClientChange<P> {
    /// Open the two ports of a looper.
    AddPort(u32),
    /// Close the two ports of a looper.
    RemovePort(u32, P, P),
    /// Ask for nothing more.
    Shutdown,
}

/// The ports of the loopers, left and right, by looper id.
pub struct LooperPorts<P> {
    ports: HashMap<u32, (P, P)>,
}

impl<P> View for LooperPorts<P> {
    type V = Map<u32, (P, P)>;

    closed spec fn view(&self) -> Map<u32, (P, P)> {
        self.ports@
    }
}

impl<P> LooperPorts<P> {
    /// What has to be asked for when a looper is added: ports, unless it has
    /// them.
    pub open spec fn to_add(self, id: u32) -> Option<ClientChange<P>> {
        if self@.contains_key(id) {
            None
        } else {
            Some(ClientChange::AddPort(id))
        }
    }

    /// What has to be asked for when a looper is removed: that its ports are
    /// closed, if it has any.
    pub open spec fn to_remove(self, id: u32) -> Option<ClientChange<P>> {
        if self@.contains_key(id) {
            Some(ClientChange::RemovePort(id, self@[id].0, self@[id].1))
        } else {
            None
        }
    }

    /// No ports.
    pub fn new() -> (r: Self)
        ensures
            r@ == Map::<u32, (P, P)>::empty(),
    {
        LooperPorts { ports: HashMap::new() }
    }

    /// The ids of the loopers that have ports, each once.
    pub fn ids(&self) -> (r: Vec<u32>)
        ensures
            forall|id: u32| #[trigger] r@.contains(id) <==> self@.contains_key(id),
            r@.no_duplicates(),
    {
        let mut r: Vec<u32> = Vec::new();
        let ghost all = spec_keys_iter(&self.ports).remaining();
        for id in keys: self.ports.keys()
            invariant
                keys.seq() == all,
                r@ =~= all.unref().take(keys.index() as int),
        {
            r.push(*id);
        }
        assert(r@ =~= all.unref());
        assert forall|id: u32| #[trigger] r@.contains(id) <==> self@.contains_key(id) by {
            assert(r@.contains(id) <==> r@.to_set().contains(id));
        }
        r
    }

    /// What has to be asked for when a looper is added: ports, unless it has
    /// them.
    pub fn add_looper(&self, id: u32) -> (r: Option<ClientChange<P>>)
        ensures
            r == self.to_add(id),
    {
        if self.ports.contains_key(&id) {
            None
        } else {
            Some(ClientChange::AddPort(id))
        }
    }

    /// Gives up the ports of a looper, and says that they have to be closed, if
    /// it has any.
    pub fn remove_looper(&mut self, id: u32) -> (r: Option<ClientChange<P>>)
        ensures
            final(self)@ == old(self)@.remove(id),
            r == old(self).to_remove(id),
    {
        match self.ports.remove(&id) {
            Some((left, right)) => Some(ClientChange::RemovePort(id, left, right)),
            None => None,
        }
    }

    /// Takes in the ports that were opened for a looper.
    pub fn port_added(&mut self, id: u32, left: P, right: P)
        ensures
            final(self)@ == old(self)@.insert(id, (left, right)),
    {
        self.ports.insert(id, (left, right));
    }

    /// The ports of a looper, if it has any.
    pub fn output_for_looper(&mut self, id: u32) -> (r: Option<&mut (P, P)>)
        ensures
            match r {
                Some(pair) => {
                    &&& old(self)@.contains_key(id)
                    &&& *pair == old(self)@[id]
                    &&& final(self)@ == old(self)@.insert(id, *final(pair))
                },
                None => !old(self)@.contains_key(id) && final(self)@ == old(self)@,
            },
    {
        match self.ports.entry(id) {
            Entry::Occupied(entry) => Some(entry.into_mut()),
            Entry::Vacant(_) => None,
        }
    }
}

/// The decimal digits of a number.
pub open spec fn decimal(n: nat) -> Seq<char>
    decreases n,
{
    if n < 10 {
        digit(n)
    } else {
        decimal(n / 10) + digit(n % 10)
    }
}

/// The digit of a number below ten.
pub open spec fn digit(n: nat) -> Seq<char> {
    if n == 0 {
        seq!['0']
    } else if n == 1 {
        seq!['1']
    } else if n == 2 {
        seq!['2']
    } else if n == 3 {
        seq!['3']
    } else if n == 4 {
        seq!['4']
    } else if n == 5 {
        seq!['5']
    } else if n == 6 {
        seq!['6']
    } else if n == 7 {
        seq!['7']
    } else if n == 8 {
        seq!['8']
    } else {
        seq!['9']
    }
}

fn digit_text(n: u32) -> (r: &'static str)
    requires
        n < 10,
    ensures
        r@ == digit(n as nat),
{
    proof {
        reveal_strlit("0");
        reveal_strlit("1");
        reveal_strlit("2");
        reveal_strlit("3");
        reveal_strlit("4");
        reveal_strlit("5");
        reveal_strlit("6");
        reveal_strlit("7");
        reveal_strlit("8");
        reveal_strlit("9");
    }
    let r = if n == 0 {
        "0"
    } else if n == 1 {
        "1"
    } else if n == 2 {
        "2"
    } else if n == 3 {
        "3"
    } else if n == 4 {
        "4"
    } else if n == 5 {
        "5"
    } else if n == 6 {
        "6"
    } else if n == 7 {
        "7"
    } else if n == 8 {
        "8"
    } else {
        "9"
    };
    assert(r@ =~= digit(n as nat));
    r
}

fn append_decimal(text: &mut String, n: u32)
    ensures
        final(text)@ == old(text)@ + decimal(n as nat),
    decreases n,
{
    if n >= 10 {
        append_decimal(text, n / 10);
    }
    text.append(digit_text(n % 10));
    assert(text@ =~= old(text)@ + decimal(n as nat));
}

/// The name of a looper's left or right output port.
pub open spec fn port_text(id: u32, right: bool) -> Seq<char> {
    "loop"@ + decimal(id as nat) + if right {
        "_out_r"@
    } else {
        "_out_l"@
    }
}

/// The name of a looper's left or right output port.
pub fn port_name(id: u32, right: bool) -> (r: String)
    ensures
        r@ == port_text(id, right),
{
    let mut r = "loop".to_owned();
    append_decimal(&mut r, id);
    if right {
        r.append("_out_r");
    } else {
        r.append("_out_l");
    }
    r
}

} // verus!
