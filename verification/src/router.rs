use crate::assoc::{
    lemma_map_of_pairs_absent, lemma_map_of_pairs_get, lemma_map_of_pairs_update, map_of_pairs,
    unique_keys,
};
use crate::method::Method;
use crate::request::{spec_path_without_query, Request};
use crate::text::str_eq;
use vstd::prelude::*;
use vstd::string::StringExecFns;

verus! {

/// An exact-match routing table: a mapping from (method, literal path) to a
/// handler value. Lookups take `&self`, so any number may run at once;
/// registration takes `&mut self`. A handler is any value the caller likes,
/// most usefully a shareable callable.
pub struct Router<H> {
    routes: Vec<(Method, String, H)>,
}

impl<H> View for Router<H> {
    type V = Map<(Method, Seq<char>), H>;

    open spec fn view(&self) -> Map<(Method, Seq<char>), H> {
        map_of_pairs(self.routes_spec())
    }
}

impl<H> Router<H> {
    /// The registered routes, in registration order.
    pub closed spec fn routes_spec(&self) -> Seq<((Method, Seq<char>), H)> {
        self.routes@.map_values(|e: (Method, String, H)| ((e.0, e.1@), e.2))
    }

    #[verifier::type_invariant]
    spec fn wf(&self) -> bool {
        unique_keys(self.routes_spec())
    }

    /// An empty routing table.
    pub fn new() -> (r: Self)
        ensures
            r@ == Map::<(Method, Seq<char>), H>::empty(),
    {
        let r = Router { routes: Vec::new() };
        proof {
            assert(r.routes_spec() =~= Seq::<((Method, Seq<char>), H)>::empty());
        }
        r
    }

    /// Registers `handler` under (`method`, `path`): a repeated
    /// registration of the same pair overwrites the previous handler.
    pub fn add_route(&mut self, method: Method, path: &str, handler: H)
        ensures
            final(self)@ == old(self)@.insert((method, path@), handler),
    {
        proof {
            use_type_invariant(&*self);
        }
        let ghost before = self.routes_spec();
        let n = self.routes.len();
        let mut idx: Option<usize> = None;
        let mut i: usize = 0;
        while i < n && idx.is_none()
            invariant
                i <= n,
                n == self.routes@.len(),
                self == old(self),
                idx is None ==> forall|k: int|
                    0 <= k < i ==> self.routes_spec()[k].0 != (method, path@),
                idx matches Some(j) ==> j < n && self.routes_spec()[j as int].0 == (
                    method,
                    path@,
                ),
            decreases n - i + (if idx is None { 1int } else { 0int }),
        {
            if self.routes[i].0 == method && str_eq(self.routes[i].1.as_str(), path) {
                idx = Some(i);
            } else {
                proof {
                    assert(self.routes_spec()[i as int].0 != (method, path@));
                }
                i = i + 1;
            }
        }
        let mut rs: Vec<(Method, String, H)> = Vec::new();
        std::mem::swap(&mut rs, &mut self.routes);
        match idx {
            Some(j) => {
                proof {
                    lemma_map_of_pairs_update(before, j as int, handler);
                }
                rs.remove(j);
                rs.insert(j, (method, String::from_str(path), handler));
                let ghost rsv = rs@.map_values(|e: (Method, String, H)| ((e.0, e.1@), e.2));
                proof {
                    assert(rsv =~= before.update(j as int, (before[j as int].0, handler)));
                    assert(unique_keys(rsv)) by {
                        assert(forall|a: int|
                            0 <= a < before.len() && a != j ==> rsv[a] == before[a]);
                    }
                }
                self.routes = rs;
                proof {
                    assert(self.routes_spec() =~= rsv);
                }
            },
            None => {
                proof {
                    lemma_map_of_pairs_absent(before, (method, path@));
                }
                rs.push((method, String::from_str(path), handler));
                let ghost rsv = rs@.map_values(|e: (Method, String, H)| ((e.0, e.1@), e.2));
                proof {
                    assert(rsv.drop_last() =~= before);
                    assert(rsv.last() == ((method, path@), handler));
                    assert(unique_keys(rsv)) by {
                        assert(forall|a: int| 0 <= a < before.len() ==> rsv[a] == before[a]);
                    }
                }
                self.routes = rs;
                proof {
                    assert(self.routes_spec() =~= rsv);
                }
            },
        }
    }

    /// The handler registered under exactly (`method`, `path`), or nothing:
    /// no prefix or pattern matching.
    pub fn find_handler(&self, method: &Method, path: &str) -> (r: Option<&H>)
        ensures
            r is Some <==> self@.contains_key((*method, path@)),
            r matches Some(h) ==> *h == self@[(*method, path@)],
    {
        proof {
            use_type_invariant(self);
        }
        let n = self.routes.len();
        let mut i: usize = 0;
        while i < n
            invariant
                i <= n,
                n == self.routes@.len(),
                unique_keys(self.routes_spec()),
                forall|k: int| 0 <= k < i ==> self.routes_spec()[k].0 != (*method, path@),
            decreases n - i,
        {
            if self.routes[i].0 == *method && str_eq(self.routes[i].1.as_str(), path) {
                proof {
                    lemma_map_of_pairs_get(self.routes_spec(), i as int);
                }
                return Some(&self.routes[i].2);
            }
            proof {
                assert(self.routes_spec()[i as int].0 != (*method, path@));
            }
            i = i + 1;
        }
        proof {
            lemma_map_of_pairs_absent(self.routes_spec(), (*method, path@));
        }
        None
    }
}

/// The handler an incoming request dispatches to: an exact lookup of its
/// method together with its path stripped of any query suffix.
pub fn route_request<'a, H>(router: &'a Router<H>, req: &Request) -> (r: Option<&'a H>)
    ensures
        r is Some <==> router@.contains_key(
            (req.spec_method(), spec_path_without_query(req.spec_path())),
        ),
        r matches Some(h) ==> *h == router@[
            (req.spec_method(), spec_path_without_query(req.spec_path()))
        ],
{
    router.find_handler(req.method(), req.path_without_query())
}

impl<H> Default for Router<H> {
    /// An empty routing table.
    fn default() -> (r: Self)
        ensures
            r@ == Map::<(Method, Seq<char>), H>::empty(),
    {
        Self::new()
    }
}

} // verus!
