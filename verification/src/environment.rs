use vstd::prelude::*;

verus! {

/// Table of binary-operator precedences, keyed by the operator character.
///
/// Viewed as a mathematical map from operator to precedence; a later
/// registration of the same operator overrides an earlier one.
pub struct Environment {
    entries: Vec<(char, u32)>,
}

/// The map described by an association list, later entries winning.
pub open spec fn assoc_map(s: Seq<(char, u32)>) -> Map<char, u32>
    decreases s.len(),
{
    if s.len() == 0 {
        Map::empty()
    } else {
        assoc_map(s.drop_last()).insert(s.last().0, s.last().1)
    }
}

/// Lookup in an association list, later entries winning.
pub open spec fn assoc_get(s: Seq<(char, u32)>, c: char) -> Option<u32>
    decreases s.len(),
{
    if s.len() == 0 {
        None
    } else if s.last().0 == c {
        Some(s.last().1)
    } else {
        assoc_get(s.drop_last(), c)
    }
}

/// `assoc_get` is exactly lookup in the map `assoc_map` describes.
proof fn lemma_assoc_get_map(s: Seq<(char, u32)>, c: char)
    ensures
        assoc_get(s, c) == (if assoc_map(s).contains_key(c) {
            Some(assoc_map(s)[c])
        } else {
            None::<u32>
        }),
    decreases s.len(),
{
    if s.len() > 0 {
        lemma_assoc_get_map(s.drop_last(), c);
    }
}

impl View for Environment {
    type V = Map<char, u32>;

    closed spec fn view(&self) -> Map<char, u32> {
        assoc_map(self.entries@)
    }
}

fn assoc_lookup(v: &Vec<(char, u32)>, i: usize, c: char) -> (r: Option<u32>)
    requires
        i <= v@.len(),
    ensures
        r == assoc_get(v@.take(i as int), c),
    decreases i,
{
    if i == 0 {
        None
    } else {
        let e = v[i - 1];
        proof {
            assert(v@.take(i as int).drop_last() =~= v@.take(i - 1));
            assert(v@.take(i as int).last() == v@[i - 1]);
        }
        if e.0 == c {
            Some(e.1)
        } else {
            assoc_lookup(v, i - 1, c)
        }
    }
}

impl Environment {
    pub fn new() -> (r: Environment)
        ensures
            r@ == Map::<char, u32>::empty(),
    {
        Environment { entries: Vec::new() }
    }

    /// The precedence registered for `operator`, if any.
    pub fn get_operator_precedence(&self, operator: char) -> (r: Option<u32>)
        ensures
            r == (if self@.contains_key(operator) {
                Some(self@[operator])
            } else {
                None::<u32>
            }),
    {
        proof {
            assert(self.entries@.take(self.entries@.len() as int) =~= self.entries@);
            lemma_assoc_get_map(self.entries@, operator);
        }
        assoc_lookup(&self.entries, self.entries.len(), operator)
    }

    /// Register (or override) the precedence of one operator.
    pub fn add_operator_precedence(&mut self, op_precedence_pair: (char, u32))
        ensures
            final(self)@ == old(self)@.insert(op_precedence_pair.0, op_precedence_pair.1),
    {
        self.entries.push(op_precedence_pair);
        proof {
            assert(self.entries@.drop_last() =~= old(self).entries@);
            assert(self.entries@.last() == op_precedence_pair);
        }
    }
}

} // verus!
