use crate::error::Error;
use vstd::prelude::*;
use vstd::string::StringExecFns;

verus! {

/// What `SCREAMING_SNAKE_CASE` makes of a name.
pub uninterp spec fn screaming_snake_of(s: Seq<char>) -> Seq<char>;

/// Relies on inflector's `to_screaming_snake_case`: the result depends on the
/// text alone.
#[verifier::external_body]
fn to_screaming_snake_case(s: &str) -> (r: String)
    ensures
        r@ == screaming_snake_of(s@),
{
    inflector::cases::screamingsnakecase::to_screaming_snake_case(s)
}

/// A variable asked for by name, with the value given for it, if any.
#[derive(Debug)]
pub struct Query {
    pub name: String,
    pub value: Option<String>,
}

/// Variables whose missing values were filled from the environment.
#[derive(Debug)]
pub struct EnvVars {
    inner: Vec<Query>,
}

/// The environment entry that may supply the variable `name`.
pub open spec fn env_key_of(name: Seq<char>) -> Seq<char> {
    seq!['N', '3', '_'] + screaming_snake_of(name)
}

/// The value of the first entry of `env` under `key`.
pub open spec fn env_lookup(env: Seq<(String, String)>, key: Seq<char>) -> Option<Seq<char>>
    decreases env.len(),
{
    if env.len() == 0 {
        None
    } else if env[0].0@ == key {
        Some(env[0].1@)
    } else {
        env_lookup(env.drop_first(), key)
    }
}

/// The value of a query once the environment is consulted: a value given
/// wins over the environment.
pub open spec fn filled(q: Query, env: Seq<(String, String)>) -> Option<Seq<char>> {
    match q.value {
        Some(v) => Some(v@),
        None => env_lookup(env, env_key_of(q.name@)),
    }
}

pub open spec fn opt_view(o: Option<String>) -> Option<Seq<char>> {
    match o {
        Some(s) => Some(s@),
        None => None,
    }
}

/// The name of the environment entry that may supply the variable `name`:
/// `N3_` and the name in upper snake case.
pub fn env_key(name: &str) -> (r: String)
    ensures
        r@ == env_key_of(name@),
{
    let snake = to_screaming_snake_case(name);
    env_key_from(snake.as_str())
}

/// The name of the environment entry for a name already in upper snake
/// case: `N3_` before it.
pub fn env_key_from(snake: &str) -> (r: String)
    ensures
        r@ == seq!['N', '3', '_'] + snake@,
{
    let mut key = "N3_".to_string();
    key.append(snake);
    proof {
        reveal_strlit("N3_");
        assert("N3_"@ =~= seq!['N', '3', '_']);
    }
    key
}

fn lookup_env(env: &Vec<(String, String)>, key: &String) -> (r: Option<String>)
    ensures
        opt_view(r) == env_lookup(env@, key@),
{
    let mut i: usize = 0;
    assert(env@.subrange(0, env@.len() as int) =~= env@);
    while i < env.len()
        invariant
            i <= env@.len(),
            env_lookup(env@, key@) == env_lookup(env@.subrange(i as int, env@.len() as int), key@),
        decreases env@.len() - i,
    {
        let ghost rest = env@.subrange(i as int, env@.len() as int);
        assert(rest.drop_first() =~= env@.subrange(i + 1, env@.len() as int));
        assert(rest[0] == env@[i as int]);
        if env[i].0 == *key {
            return Some(env[i].1.clone());
        }
        i = i + 1;
    }
    None
}

impl EnvVars {
    /// The queries, in order.
    pub closed spec fn entries(&self) -> Seq<Query> {
        self.inner@
    }

    /// Fills each query that has no value from the environment `env`, given
    /// as its entries, under the key `env_key` makes of the query's name.
    pub fn load(query: Vec<Query>, env: &Vec<(String, String)>) -> (r: Result<EnvVars, Error>)
        ensures
            r is Ok,
            r matches Ok(vars) ==> vars.entries().len() == query@.len() && forall|i: int|
                0 <= i < query@.len() ==> (#[trigger] vars.entries()[i]).name == query@[i].name
                    && opt_view(vars.entries()[i].value) == filled(query@[i], env@),
    {
        let n = query.len();
        let mut inner: Vec<Query> = Vec::new();
        let mut i: usize = 0;
        while i < n
            invariant
                n == query@.len(),
                i <= n,
                inner@.len() == i,
                forall|k: int|
                    0 <= k < i ==> (#[trigger] inner@[k]).name == query@[k].name && opt_view(
                        inner@[k].value,
                    ) == filled(query@[k], env@),
            decreases n - i,
        {
            let q = &query[i];
            let value = match &q.value {
                Some(v) => Some(v.clone()),
                None => {
                    let key = env_key(q.name.as_str());
                    lookup_env(env, &key)
                },
            };
            inner.push(Query { name: q.name.clone(), value });
            i = i + 1;
        }
        Ok(EnvVars { inner })
    }

    /// The queries with their values, in order.
    pub fn queries(&self) -> (r: &Vec<Query>)
        ensures
            r@ == self.entries(),
    {
        &self.inner
    }
}

} // verus!
