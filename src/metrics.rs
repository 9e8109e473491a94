use crate::error::MetricsError;
use crate::text::{decimal, push_decimal};
use std::sync::atomic::{AtomicI64, Ordering};
use std::sync::Arc;
use vstd::prelude::*;
use vstd::string::StringExecFns;

verus! {

/// The names of a list of counters.
pub open spec fn names_of(v: Seq<(String, AtomicI64)>) -> Seq<Seq<char>> {
    Seq::new(v.len(), |t: int| v[t].0@)
}

/// The first `n` counters as lines `name: value`, each ended by a newline.
pub open spec fn metrics_text(names: Seq<Seq<char>>, values: Seq<i64>, n: nat) -> Seq<char>
    decreases n,
{
    if n == 0 {
        seq![]
    } else {
        metrics_text(names, values, (n - 1) as nat) + names[n - 1] + seq![':', ' '] + decimal(
            values[n - 1] as int,
        ) + seq!['\n']
    }
}

proof fn lemma_metrics_text_prefix(names: Seq<Seq<char>>, values: Seq<i64>, more: Seq<i64>, n: nat)
    requires
        n <= values.len(),
        n <= more.len(),
        forall|t: int| 0 <= t < n ==> #[trigger] more[t] == values[t],
    ensures
        metrics_text(names, more, n) == metrics_text(names, values, n),
    decreases n,
{
    if n > 0 {
        lemma_metrics_text_prefix(names, values, more, (n - 1) as nat);
    }
}

/// Counters over a fixed set of names. Clones share the counters, and each
/// counter is an atomic integer that any holder may increment.
#[derive(Clone)]
pub struct AmapMetrics {
    data: Arc<Vec<(String, AtomicI64)>>,
}

/// The position of the counter named `key`, if there is one.
fn find(data: &Vec<(String, AtomicI64)>, key: &str) -> (r: Option<usize>)
    ensures
        r matches Some(t) ==> t < data@.len() && data@[t as int].0@ == key@,
        r is None ==> !names_of(data@).contains(key@),
{
    let owned = key.to_owned();
    let mut t: usize = 0;
    while t < data.len()
        invariant
            owned@ == key@,
            t <= data@.len(),
            forall|u: int| 0 <= u < t ==> (#[trigger] data@[u]).0@ != key@,
        decreases data@.len() - t,
    {
        if data[t].0 == owned {
            return Some(t);
        }
        t = t + 1;
    }
    assert forall|u: int| 0 <= u < names_of(data@).len() implies #[trigger] names_of(data@)[u]
        != key@ by {
        assert(data@[u].0@ != key@);
    }
    None
}

impl AmapMetrics {
    /// The names of the counters, each once, in the order first given.
    pub closed spec fn keys(&self) -> Seq<Seq<char>> {
        names_of((*self.data)@)
    }

    /// One counter, starting at zero, for each distinct name.
    pub fn new(metrics_name: &[&'static str]) -> (r: Self)
        ensures
            r.keys().no_duplicates(),
            forall|s: Seq<char>|
                r.keys().contains(s) <==> exists|t: int|
                    0 <= t < metrics_name@.len() && (#[trigger] metrics_name@[t])@ == s,
    {
        let mut data: Vec<(String, AtomicI64)> = Vec::new();
        let mut i: usize = 0;
        while i < metrics_name.len()
            invariant
                i <= metrics_name@.len(),
                names_of(data@).no_duplicates(),
                forall|s: Seq<char>|
                    names_of(data@).contains(s) <==> exists|t: int|
                        0 <= t < i && (#[trigger] metrics_name@[t])@ == s,
            decreases metrics_name@.len() - i,
        {
            let name = metrics_name[i];
            let ghost before = data@;
            let found = find(&data, name);
            if found.is_none() {
                data.push((name.to_owned(), AtomicI64::new(0)));
                assert(names_of(data@) =~= names_of(before).push(name@));
            } else {
                assert(names_of(before)[found->Some_0 as int] == name@);
                assert(names_of(data@) =~= names_of(before));
            }
            assert forall|s: Seq<char>|
                names_of(data@).contains(s) <==> (names_of(before).contains(s) || s == name@) by {
                if found.is_none() {
                    if s == name@ {
                        assert(names_of(data@)[names_of(before).len() as int] == s);
                    }
                    if names_of(before).contains(s) {
                        let u = choose|u: int|
                            0 <= u < names_of(before).len() && names_of(before)[u] == s;
                        assert(names_of(data@)[u] == s);
                    }
                } else {
                    if s == name@ {
                        assert(names_of(before)[found->Some_0 as int] == s);
                    }
                }
            }
            i = i + 1;
            assert forall|s: Seq<char>|
                names_of(data@).contains(s) <==> exists|t: int|
                    0 <= t < i && (#[trigger] metrics_name@[t])@ == s by {
                if s == name@ {
                    assert(metrics_name@[i - 1]@ == s);
                }
                if names_of(before).contains(s) {
                    let t = choose|t: int| 0 <= t < i - 1 && (#[trigger] metrics_name@[t])@ == s;
                    assert(metrics_name@[t]@ == s);
                }
                if exists|t: int| 0 <= t < i && (#[trigger] metrics_name@[t])@ == s {
                    let t = choose|t: int| 0 <= t < i && (#[trigger] metrics_name@[t])@ == s;
                    if t < i - 1 {
                        assert(names_of(before).contains(s));
                    }
                }
            }
        }
        Self { data: Arc::new(data) }
    }

    /// Each counter as a line `name: value`, in the order of `keys`. Other
    /// holders may increment meanwhile, so the values are whatever each
    /// counter held when it was read.
    pub fn to_string(&self) -> (r: String)
        ensures
            exists|values: Seq<i64>|
                values.len() == self.keys().len() && r@ == metrics_text(
                    self.keys(),
                    values,
                    self.keys().len(),
                ),
    {
        let data: &Vec<(String, AtomicI64)> = &self.data;
        let mut s = String::new();
        let ghost mut values: Seq<i64> = Seq::empty();
        let mut t: usize = 0;
        while t < data.len()
            invariant
                data@ == (*self.data)@,
                t <= data@.len(),
                values.len() == t,
                s@ == metrics_text(names_of(data@), values, t as nat),
            decreases data@.len() - t,
        {
            let v = data[t].1.load(Ordering::Relaxed);
            let ghost prev = s@;
            s.append(data[t].0.as_str());
            proof {
                reveal_strlit(": ");
            }
            s.append(": ");
            push_decimal(&mut s, v);
            proof {
                reveal_strlit("\n");
            }
            s.append("\n");
            proof {
                let old_values = values;
                values = values.push(v);
                lemma_metrics_text_prefix(names_of(data@), old_values, values, t as nat);
                assert(s@ =~= metrics_text(names_of(data@), values, (t + 1) as nat));
            }
            t = t + 1;
        }
        assert(self.keys() == names_of(data@));
        assert(values.len() == self.keys().len() && s@ == metrics_text(
            self.keys(),
            values,
            self.keys().len(),
        ));
        s
    }

    /// Adds one to the counter named `key`; fails if there is none.
    pub fn inc(&self, key: &str) -> (r: Result<(), MetricsError>)
        ensures
            r is Ok <==> self.keys().contains(key@),
            r is Err ==> r == Err::<(), MetricsError>(MetricsError::KeyNotFound),
    {
        let data: &Vec<(String, AtomicI64)> = &self.data;
        match find(data, key) {
            Some(t) => {
                assert(self.keys()[t as int] == key@);
                data[t].1.fetch_add(1, Ordering::Relaxed);
                Ok(())
            },
            None => Err(MetricsError::KeyNotFound),
        }
    }
}

} // verus!
