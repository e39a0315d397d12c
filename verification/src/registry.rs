use vstd::prelude::*;
use crate::pattern::str_eq;

verus! {

/// The position of the first (and, under sequential registration, only)
/// handler registered under `name`.
pub open spec fn reg_find<H>(items: Seq<(String, H)>, name: Seq<char>) -> Option<int>
    decreases items.len(),
{
    if items.len() == 0 {
        None
    } else if items[0].0@ == name {
        Some(0)
    } else {
        match reg_find(items.drop_first(), name) {
            Some(j) => Some(j + 1),
            None => None,
        }
    }
}

/// What [`reg_find`] returns: the first index registered under the name, or
/// nothing when the name is unregistered.
pub proof fn lemma_reg_find<H>(items: Seq<(String, H)>, name: Seq<char>)
    ensures
        match reg_find(items, name) {
            Some(j) => 0 <= j < items.len() && items[j].0@ == name && forall|k: int|
                0 <= k < j ==> items[k].0@ != name,
            None => forall|k: int| 0 <= k < items.len() ==> items[k].0@ != name,
        },
    decreases items.len(),
{
    if items.len() > 0 && items[0].0@ != name {
        lemma_reg_find(items.drop_first(), name);
        match reg_find(items.drop_first(), name) {
            Some(jp) => {
                assert forall|k: int| 0 <= k < jp + 1 implies items[k].0@ != name by {
                    if k > 0 {
                        assert(items.drop_first()[k - 1] == items[k]);
                    }
                }
            },
            None => {
                assert forall|k: int| 0 <= k < items.len() implies items[k].0@ != name by {
                    if k > 0 {
                        assert(items.drop_first()[k - 1] == items[k]);
                    }
                }
            },
        }
    }
}

/// The mapping from controller names to handler capabilities. Registrations
/// happen during setup; dispatch only reads.
pub struct HandlerRegistry<H> {
    items: Vec<(String, H)>,
}

impl<H> View for HandlerRegistry<H> {
    type V = Seq<(String, H)>;

    closed spec fn view(&self) -> Seq<(String, H)> {
        self.items@
    }
}

impl<H> HandlerRegistry<H> {
    /// An empty registry: every controller name is unbound.
    pub fn new() -> (r: HandlerRegistry<H>)
        ensures
            r@ == Seq::<(String, H)>::empty(),
    {
        HandlerRegistry { items: Vec::new() }
    }

    /// Binds a handler to a controller name, overwriting any handler
    /// registered under the same name before: the last registration wins.
    pub fn register(&mut self, controller_name: String, handler: H)
        ensures
            match reg_find(old(self)@, controller_name@) {
                Some(j) => final(self)@ == old(self)@.update(j, (controller_name, handler)),
                None => final(self)@ == old(self)@.push((controller_name, handler)),
            },
    {
        proof {
            lemma_reg_find(self@, controller_name@);
        }
        let mut j: usize = 0;
        let n = self.items.len();
        while j < n
            invariant
                0 <= j <= n,
                *self == *old(self),
                n == self.items@.len(),
                forall|k: int| 0 <= k < j ==> self.items@[k].0@ != controller_name@,
            decreases n - j,
        {
            let hit = {
                let e = &self.items[j];
                e.0 == controller_name
            };
            if hit {
                proof {
                    lemma_reg_find(self.items@, controller_name@);
                    match reg_find(self.items@, controller_name@) {
                        Some(jp) => {
                            if jp < j {
                                assert(self.items@[jp].0@ != controller_name@);
                            }
                        },
                        None => {
                            assert(self.items@[j as int].0@ != controller_name@);
                        },
                    }
                }
                let ghost items0 = self.items@;
                self.items.remove(j);
                self.items.insert(j, (controller_name, handler));
                proof {
                    assert(self.items@ =~= items0.update(j as int, self.items@[j as int]));
                }
                return ;
            }
            j = j + 1;
        }
        proof {
            lemma_reg_find(self.items@, controller_name@);
            match reg_find(self.items@, controller_name@) {
                Some(jp) => {
                    assert(self.items@[jp].0@ != controller_name@);
                },
                None => {},
            }
        }
        self.items.push((controller_name, handler));
    }

    /// Looks a controller name up, returning the handler bound to it.
    pub fn resolve(&self, controller_name: &str) -> (r: Option<&H>)
        ensures
            match reg_find(self@, controller_name@) {
                Some(j) => r is Some && r->Some_0 == &self@[j].1,
                None => r is None,
            },
    {
        proof {
            lemma_reg_find(self@, controller_name@);
        }
        let mut j: usize = 0;
        let n = self.items.len();
        while j < n
            invariant
                0 <= j <= n,
                n == self.items@.len(),
                forall|k: int| 0 <= k < j ==> self.items@[k].0@ != controller_name@,
        decreases n - j,
        {
            let hit = {
                let e = &self.items[j];
                str_eq(e.0.as_str(), controller_name)
            };
            if hit {
                proof {
                    lemma_reg_find(self.items@, controller_name@);
                    match reg_find(self.items@, controller_name@) {
                        Some(jp) => {
                            if jp < j {
                                assert(self.items@[jp].0@ != controller_name@);
                            }
                            if jp > j {
                                assert(self.items@[j as int].0@ != controller_name@);
                            }
                        },
                        None => {
                            assert(self.items@[j as int].0@ != controller_name@);
                        },
                    }
                }
                return Some(&self.items[j].1);
            }
            j = j + 1;
        }
        None
    }
}

} // verus!
