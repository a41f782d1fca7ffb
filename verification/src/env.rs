//! Environments as lists of key and value, in the order in which a child process receives them.

use vstd::prelude::*;

use crate::text::{decimal_string, same};

verus! {

/// A key with its value.
pub type Pair = (Seq<char>, Seq<char>);

/// Whether some variable of `env` has this key.
pub open spec fn has_key(env: Seq<Pair>, key: Seq<char>) -> bool {
    exists|i: int| 0 <= i < env.len() && #[trigger] env[i].0 == key
}

/// The variables of `env` whose key is not `key`, in their order.
pub open spec fn without_key(env: Seq<Pair>, key: Seq<char>) -> Seq<Pair> {
    env.filter(|p: Pair| p.0 != key)
}

/// The index of the first variable of `env` whose key is `a` or `b`, or the length of `env`.
pub open spec fn first_of(env: Seq<Pair>, a: Seq<char>, b: Seq<char>) -> int
    decreases env.len(),
{
    if env.len() == 0 || env.first().0 == a || env.first().0 == b {
        0
    } else {
        1 + first_of(env.drop_first(), a, b)
    }
}

/// `env` with `value` for the first variable whose key is `a` or `b`; `env` where there is none.
pub open spec fn with_first_set(env: Seq<Pair>, a: Seq<char>, b: Seq<char>, value: Seq<char>) -> Seq<
    Pair,
> {
    let i = first_of(env, a, b);
    if i < env.len() {
        env.update(i, (env[i].0, value))
    } else {
        env
    }
}

pub proof fn lemma_first_of(env: Seq<Pair>, a: Seq<char>, b: Seq<char>)
    ensures
        0 <= first_of(env, a, b) <= env.len(),
        first_of(env, a, b) < env.len() ==> env[first_of(env, a, b)].0 == a || env[first_of(
            env,
            a,
            b,
        )].0 == b,
        forall|i: int| 0 <= i < first_of(env, a, b) ==> env[i].0 != a && env[i].0 != b,
    decreases env.len(),
{
    if env.len() > 0 && env.first().0 != a && env.first().0 != b {
        lemma_first_of(env.drop_first(), a, b);
        assert forall|i: int| 0 <= i < first_of(env, a, b) implies env[i].0 != a && env[i].0
            != b by {
            if i > 0 {
                assert(env[i] == env.drop_first()[i - 1]);
            }
        }
        if first_of(env, a, b) < env.len() {
            assert(env[first_of(env, a, b)] == env.drop_first()[first_of(env, a, b) - 1]);
        }
    }
}

/// A copy of `env`.
pub fn copy_env(env: &[(String, String)]) -> (r: Vec<(String, String)>)
    ensures
        r.deep_view() == env.deep_view(),
{
    let mut out: Vec<(String, String)> = Vec::new();
    let mut i: usize = 0;
    while i < env.len()
        invariant
            i <= env.len(),
            out@ == env@.take(i as int),
        decreases env.len() - i,
    {
        out.push((env[i].0.clone(), env[i].1.clone()));
        assert(out@ =~= env@.take(i + 1));
        i = i + 1;
    }
    assert(out@ =~= env@);
    assert(out.deep_view() =~= env.deep_view());
    out
}

/// A copy of `env` with one more variable at its end.
pub fn with_var(env: &[(String, String)], key: &str, value: String) -> (r: Vec<(String, String)>)
    ensures
        r.deep_view() == env.deep_view().push((key@, value@)),
{
    let mut out = copy_env(env);
    let ghost before = out.deep_view();
    out.push((key.to_owned(), value));
    assert(out.deep_view() =~= before.push((key@, value@)));
    out
}

/// A copy of `env` with a file descriptor's number as one more variable at its end.
pub fn with_fd(env: &[(String, String)], key: &str, fd: i32) -> (r: Vec<(String, String)>)
    ensures
        r.deep_view() == env.deep_view().push((key@, crate::text::decimal(fd as int))),
{
    with_var(env, key, decimal_string(fd))
}

/// Drops the variables with this key.
pub fn drop_key(env: Vec<(String, String)>, key: &str) -> (r: Vec<(String, String)>)
    ensures
        r.deep_view() == without_key(env.deep_view(), key@),
{
    let ghost all = env.deep_view();
    let ghost keep = |p: Pair| p.0 != key@;
    let mut out: Vec<(String, String)> = Vec::new();
    let mut i: usize = 0;
    proof {
        reveal(Seq::filter);
    }
    assert(out.deep_view() =~= all.take(0).filter(keep));
    while i < env.len()
        invariant
            i <= env.len(),
            all == env.deep_view(),
            keep == (|p: Pair| p.0 != key@),
            out.deep_view() == all.take(i as int).filter(keep),
        decreases env.len() - i,
    {
        proof {
            reveal(Seq::filter);
            assert(all.take(i + 1).drop_last() =~= all.take(i as int));
        }
        let ghost before = out.deep_view();
        if !same(env[i].0.as_str(), key) {
            out.push((env[i].0.clone(), env[i].1.clone()));
            assert(out.deep_view() =~= before.push(all[i as int]));
        }
        i = i + 1;
    }
    assert(all.take(env.len() as int) =~= all);
    out
}

/// Gives the first variable whose key is `a` or `b` the number of a file descriptor.
pub fn set_first_fd(env: Vec<(String, String)>, a: &str, b: &str, fd: i32) -> (r: Vec<
    (String, String),
>)
    ensures
        r.deep_view() == with_first_set(
            env.deep_view(),
            a@,
            b@,
            crate::text::decimal(fd as int),
        ),
{
    let ghost all = env.deep_view();
    let n: usize = env.len();
    let mut out = env;
    let mut i: usize = 0;
    while i < n
        invariant
            i <= n,
            n == out.len(),
            all == env.deep_view(),
            out.deep_view() == all,
            forall|j: int| 0 <= j < i ==> all[j].0 != a@ && all[j].0 != b@,
        decreases n - i,
    {
        assert(all[i as int].0 == out@[i as int].0@);
        if same(out[i].0.as_str(), a) || same(out[i].0.as_str(), b) {
            proof {
                lemma_first_of(all, a@, b@);
            }
            let key: String = out[i].0.clone();
            out.set(i, (key, decimal_string(fd)));
            assert(out.deep_view() =~= with_first_set(
                all,
                a@,
                b@,
                crate::text::decimal(fd as int),
            ));
            return out;
        }
        i = i + 1;
    }
    proof {
        lemma_first_of(all, a@, b@);
    }
    out
}

/// To drop a key keeps every other variable, with its value and in its order, and no variable with
/// the key: the result holds the variables at `places`, which are all those with another key.
pub proof fn law_dropping_a_key_keeps_the_rest(env: Seq<Pair>, key: Seq<char>) -> (places: Seq<int>)
    ensures
        places.len() == without_key(env, key).len(),
        forall|k: int|
            0 <= k < places.len() ==> 0 <= #[trigger] places[k] < env.len() && without_key(
                env,
                key,
            )[k] == env[places[k]],
        forall|j: int, k: int| 0 <= j < k < places.len() ==> places[j] < places[k],
        forall|i: int|
            0 <= i < env.len() ==> (places.contains(i) <==> (#[trigger] env[i]).0 != key),
    decreases env.len(),
{
    reveal(Seq::filter);
    if env.len() == 0 {
        Seq::empty()
    } else {
        let front = env.drop_last();
        let n = env.len() - 1;
        let before = law_dropping_a_key_keeps_the_rest(front, key);
        let places = if env.last().0 != key {
            before.push(n)
        } else {
            before
        };
        assert(without_key(env, key) == if env.last().0 != key {
            without_key(front, key).push(env.last())
        } else {
            without_key(front, key)
        });
        assert forall|k: int| 0 <= k < places.len() implies 0 <= #[trigger] places[k] < env.len()
            && without_key(env, key)[k] == env[places[k]] by {
            if k < before.len() {
                assert(places[k] == before[k]);
            }
        }
        assert forall|i: int| 0 <= i < env.len() implies (places.contains(i) <==> (
        #[trigger] env[i]).0 != key) by {
            if i < n {
                assert(front[i] == env[i]);
                if before.contains(i) {
                    assert(places[before.index_of(i)] == i);
                }
                if places.contains(i) {
                    assert(before[places.index_of(i)] == i);
                }
            } else {
                if env[i].0 != key {
                    assert(places[before.len() as int] == i);
                } else if places.contains(i) {
                    assert(before[places.index_of(i)] == i);
                }
            }
        }
        places
    }
}

/// To set the first variable with one of two keys changes the value of that variable and nothing
/// else, where `first` is its index, or the length of the environment where there is none.
pub proof fn law_first_of_two_keys_is_set(
    env: Seq<Pair>,
    a: Seq<char>,
    b: Seq<char>,
    value: Seq<char>,
    first: int,
)
    requires
        0 <= first <= env.len(),
        forall|i: int| 0 <= i < first ==> (#[trigger] env[i]).0 != a && env[i].0 != b,
        first < env.len() ==> env[first].0 == a || env[first].0 == b,
    ensures
        with_first_set(env, a, b, value).len() == env.len(),
        forall|i: int|
            0 <= i < env.len() ==> #[trigger] with_first_set(env, a, b, value)[i] == (
                env[i].0,
                if i == first {
                    value
                } else {
                    env[i].1
                },
            ),
{
    lemma_first_of(env, a, b);
    let f = first_of(env, a, b);
    if f < first {
        assert(env[f].0 != a);
    }
    assert forall|i: int| 0 <= i < env.len() implies #[trigger] with_first_set(env, a, b, value)[i]
        == (
        env[i].0,
        if i == first {
            value
        } else {
            env[i].1
        },
    ) by {}
}

/// A key is in an environment where some variable has it.
pub proof fn law_key_of_a_variable(env: Seq<Pair>, p: Pair, key: Seq<char>)
    ensures
        !has_key(Seq::empty(), key),
        has_key(env.push(p), key) <==> has_key(env, key) || p.0 == key,
{
    if has_key(env, key) {
        let i = choose|i: int| 0 <= i < env.len() && #[trigger] env[i].0 == key;
        assert(env.push(p)[i].0 == key);
    }
    if p.0 == key {
        assert(env.push(p)[env.len() as int].0 == key);
    }
    if has_key(env.push(p), key) && p.0 != key {
        let i = choose|i: int| 0 <= i < env.push(p).len() && #[trigger] env.push(p)[i].0 == key;
        assert(env[i].0 == key);
    }
}

/// A variable that is added stands behind the others, which stay as they are, and a file descriptor
/// is written as its number.
pub proof fn law_added_variable_is_the_last(
    env: &[(String, String)],
    key: &str,
    value: String,
    fd: i32,
    a: Vec<(String, String)>,
    b: Vec<(String, String)>,
    c: Vec<(String, String)>,
)
    requires
        call_ensures(copy_env, (env,), a),
        call_ensures(with_var, (env, key, value), b),
        call_ensures(with_fd, (env, key, fd), c),
    ensures
        a.deep_view() == env.deep_view(),
        b.deep_view().drop_last() == env.deep_view(),
        b.deep_view().last() == (key@, value@),
        b@.len() == env@.len() + 1,
        c.deep_view().drop_last() == env.deep_view(),
        c.deep_view().last() == (key@, crate::text::decimal(fd as int)),
        c@.len() == env@.len() + 1,
{
    assert(b.deep_view().len() == b@.len());
    assert(c.deep_view().len() == c@.len());
    assert(env.deep_view().len() == env@.len());
    assert(b.deep_view().drop_last() =~= env.deep_view());
    assert(c.deep_view().drop_last() =~= env.deep_view());
}

/// A key that is dropped is gone, and every other variable is still there.
pub proof fn law_dropped_key_is_gone(
    env: Vec<(String, String)>,
    key: &str,
    r: Vec<(String, String)>,
) -> (places: Seq<int>)
    requires
        call_ensures(drop_key, (env, key), r),
    ensures
        r.deep_view().len() == places.len(),
        forall|k: int|
            0 <= k < places.len() ==> 0 <= #[trigger] places[k] < env@.len() && r.deep_view()[k]
                == env.deep_view()[places[k]],
        forall|j: int, k: int| 0 <= j < k < places.len() ==> places[j] < places[k],
        forall|i: int|
            0 <= i < env@.len() ==> (places.contains(i) <==> (#[trigger] env.deep_view()[i]).0
                != key@),
{
    law_dropping_a_key_keeps_the_rest(env.deep_view(), key@)
}

/// A descriptor's number is put into the first variable with one of the keys, and nowhere else.
pub proof fn law_number_goes_into_one_variable(
    env: Vec<(String, String)>,
    a: &str,
    b: &str,
    fd: i32,
    r: Vec<(String, String)>,
    first: int,
)
    requires
        call_ensures(set_first_fd, (env, a, b, fd), r),
        0 <= first <= env@.len(),
        forall|i: int|
            0 <= i < first ==> (#[trigger] env.deep_view()[i]).0 != a@ && env.deep_view()[i].0
                != b@,
        first < env@.len() ==> env.deep_view()[first].0 == a@ || env.deep_view()[first].0 == b@,
    ensures
        r@.len() == env@.len(),
        forall|i: int|
            0 <= i < env@.len() ==> #[trigger] r.deep_view()[i] == (
                env.deep_view()[i].0,
                if i == first {
                    crate::text::decimal(fd as int)
                } else {
                    env.deep_view()[i].1
                },
            ),
{
    law_first_of_two_keys_is_set(
        env.deep_view(),
        a@,
        b@,
        crate::text::decimal(fd as int),
        first,
    );
    assert(r.deep_view().len() == r@.len());
}

} // verus!
