//! Composing a child's environment from an inheritance policy and overrides.

use vstd::prelude::*;

verus! {

/// Which names of the parent environment a child inherits.
#[derive(Clone, Debug)]
pub enum EnvInherit {
    /// Inherit nothing.
    NoInherit,
    /// Inherit the whole parent environment.
    All,
    /// Inherit exactly the named variables.
    Vars(Vec<String>),
}

/// A declarative environment specification: an inheritance policy plus
/// explicit overrides.  `vars` wins over inherited entries on collision.
#[derive(Clone, Debug)]
pub struct EnvSpec {
    pub inherit: EnvInherit,
    pub vars: Vec<(String, String)>,
}

/// The mapping that a sequence of name/value pairs denotes; a later pair
/// wins over an earlier one with the same name.
pub open spec fn map_of(s: Seq<(String, String)>) -> Map<Seq<char>, Seq<char>>
    decreases s.len(),
{
    if s.len() == 0 {
        Map::empty()
    } else {
        map_of(s.drop_last()).insert(s.last().0@, s.last().1@)
    }
}

/// No two pairs bind the same name.
pub open spec fn keys_unique(s: Seq<(String, String)>) -> bool {
    forall|i: int, j: int| 0 <= i < j < s.len() ==> s[i].0@ != s[j].0@
}

/// Whether the inheritance policy admits a variable of the given name.
pub open spec fn admits(inherit: &EnvInherit, name: Seq<char>) -> bool {
    match inherit {
        EnvInherit::NoInherit => false,
        EnvInherit::All => true,
        EnvInherit::Vars(names) => exists|i: int| 0 <= i < names@.len() && names@[i]@ == name,
    }
}

/// A name is bound in the map iff some pair binds it.
pub proof fn lemma_map_of_contains(s: Seq<(String, String)>, k: Seq<char>)
    ensures
        map_of(s).contains_key(k) <==> exists|i: int| 0 <= i < s.len() && s[i].0@ == k,
    decreases s.len(),
{
    if s.len() > 0 {
        lemma_map_of_contains(s.drop_last(), k);
        if s.last().0@ == k {
            assert(s[s.len() - 1].0@ == k);
        } else if map_of(s).contains_key(k) {
            assert(exists|i: int| 0 <= i < s.len() - 1 && s[i].0@ == k);
        } else {
            assert forall|i: int| 0 <= i < s.len() && s[i].0@ == k implies false by {
                assert(s.drop_last()[i] == s[i]);
            }
        }
    }
}

/// With unique names, the pair that binds a name gives its value.
pub proof fn lemma_map_of_index(s: Seq<(String, String)>, i: int)
    requires
        keys_unique(s),
        0 <= i < s.len(),
    ensures
        map_of(s).contains_key(s[i].0@),
        map_of(s)[s[i].0@] == s[i].1@,
    decreases s.len(),
{
    lemma_map_of_contains(s, s[i].0@);
    if i < s.len() - 1 {
        assert(s.last().0@ != s[i].0@);
        assert(s.drop_last()[i] == s[i]);
        lemma_map_of_index(s.drop_last(), i);
    }
}

/// Whether some pair of `v` binds `name`.
#[verifier::loop_isolation(false)]
fn has_key(v: &Vec<(String, String)>, name: &String) -> (r: bool)
    ensures
        r == map_of(v@).contains_key(name@),
{
    proof {
        lemma_map_of_contains(v@, name@);
    }
    let mut i: usize = 0;
    while i < v.len()
        invariant
            0 <= i <= v@.len(),
            forall|j: int| 0 <= j < i ==> v@[j].0@ != name@,
        decreases v@.len() - i,
    {
        if v[i].0 == *name {
            return true;
        }
        i += 1;
    }
    false
}

/// Whether the policy admits the given name.
#[verifier::loop_isolation(false)]
fn admits_exec(inherit: &EnvInherit, name: &String) -> (r: bool)
    ensures
        r == admits(inherit, name@),
{
    match inherit {
        EnvInherit::NoInherit => false,
        EnvInherit::All => true,
        EnvInherit::Vars(names) => {
            let mut i: usize = 0;
            while i < names.len()
                invariant
                    0 <= i <= names@.len(),
                    forall|j: int| 0 <= j < i ==> names@[j]@ != name@,
                decreases names@.len() - i,
            {
                if names[i] == *name {
                    return true;
                }
                i += 1;
            }
            false
        },
    }
}

/// Builds a child environment: the parent entries admitted by the
/// inheritance policy, overlaid with the explicit overrides, which win on
/// collision.  The result binds exactly the admitted names together with the
/// override names, each name once.
#[verifier::loop_isolation(false)]
pub fn build(parent: &Vec<(String, String)>, spec: &EnvSpec) -> (r: Vec<(String, String)>)
    requires
        keys_unique(parent@),
        keys_unique(spec.vars@),
    ensures
        keys_unique(r@),
        forall|k: Seq<char>| #![trigger map_of(r@).contains_key(k)]
            map_of(r@).contains_key(k) <==> (map_of(spec.vars@).contains_key(k) || (map_of(
                parent@,
            ).contains_key(k) && admits(&spec.inherit, k))),
        forall|k: Seq<char>|
            map_of(spec.vars@).contains_key(k) ==> map_of(r@)[k] == map_of(spec.vars@)[k],
        forall|k: Seq<char>|
            !map_of(spec.vars@).contains_key(k) && map_of(parent@).contains_key(k) && admits(
                &spec.inherit,
                k,
            ) ==> map_of(r@)[k] == map_of(parent@)[k],
{
    let mut out: Vec<(String, String)> = Vec::new();
    let mut i: usize = 0;
    while i < parent.len()
        invariant
            0 <= i <= parent@.len(),
            keys_unique(parent@),
            keys_unique(out@),
            forall|k: Seq<char>|
                map_of(out@).contains_key(k) <==> exists|j: int|
                    0 <= j < i && parent@[j].0@ == k && admits(&spec.inherit, k) && !map_of(
                        spec.vars@,
                    ).contains_key(k),
            forall|k: Seq<char>|
                map_of(out@).contains_key(k) ==> map_of(out@)[k] == map_of(parent@)[k],
        decreases parent@.len() - i,
    {
        let name = parent[i].0.clone();
        let ghost out0 = out@;
        if admits_exec(&spec.inherit, &name) && !has_key(&spec.vars, &name) {
            let value = parent[i].1.clone();
            out.push((name, value));
            proof {
                assert(out@.drop_last() == out0);
                lemma_map_of_index(parent@, i as int);
                assert forall|a: int, b: int| 0 <= a < b < out@.len() implies out@[a].0@
                    != out@[b].0@ by {
                    if b == out@.len() - 1 {
                        lemma_map_of_index(out0, a);
                        let j = choose|j: int|
                            0 <= j < i && parent@[j].0@ == out0[a].0@ && admits(&spec.inherit,
                            out0[a].0@) && !map_of(spec.vars@).contains_key(out0[a].0@);
                        assert(parent@[j].0@ != parent@[i as int].0@);
                    }
                }
                assert forall|k: Seq<char>| map_of(out@).contains_key(k) implies map_of(out@)[k]
                    == map_of(parent@)[k] by {
                    if k != parent@[i as int].0@ {
                        assert(map_of(out0).contains_key(k));
                    }
                }
                assert forall|k: Seq<char>|
                    (exists|j: int|
                        0 <= j < i + 1 && parent@[j].0@ == k && admits(&spec.inherit, k)
                            && !map_of(spec.vars@).contains_key(k)) implies map_of(
                    out@,
                ).contains_key(k) by {
                    let j = choose|j: int|
                        0 <= j < i + 1 && parent@[j].0@ == k && admits(&spec.inherit, k) && !map_of(
                            spec.vars@,
                        ).contains_key(k);
                    if j < i {
                        assert(map_of(out0).contains_key(k));
                    }
                }
            }
        } else {
            proof {
                assert forall|k: Seq<char>|
                    (exists|j: int|
                        0 <= j < i + 1 && parent@[j].0@ == k && admits(&spec.inherit, k)
                            && !map_of(spec.vars@).contains_key(k)) implies map_of(
                    out@,
                ).contains_key(k) by {
                    let j = choose|j: int|
                        0 <= j < i + 1 && parent@[j].0@ == k && admits(&spec.inherit, k) && !map_of(
                            spec.vars@,
                        ).contains_key(k);
                    assert(j < i);
                }
            }
        }
        i += 1;
    }
    let ghost filtered = out@;
    proof {
        assert(forall|k: Seq<char>|
            map_of(filtered).contains_key(k) <==> exists|j: int|
                0 <= j < parent@.len() && parent@[j].0@ == k && admits(&spec.inherit, k)
                    && !map_of(spec.vars@).contains_key(k));
        assert(forall|k: Seq<char>|
            map_of(filtered).contains_key(k) ==> map_of(filtered)[k] == map_of(parent@)[k]);
    }
    let mut i: usize = 0;
    while i < spec.vars.len()
        invariant
            0 <= i <= spec.vars@.len(),
            keys_unique(spec.vars@),
            keys_unique(out@),
            out@.len() >= filtered.len(),
            out@.subrange(0, filtered.len() as int) == filtered,
            forall|k: Seq<char>|
                map_of(filtered).contains_key(k) <==> exists|j: int|
                    0 <= j < parent@.len() && parent@[j].0@ == k && admits(&spec.inherit, k)
                        && !map_of(spec.vars@).contains_key(k),
            forall|k: Seq<char>|
                map_of(filtered).contains_key(k) ==> map_of(filtered)[k] == map_of(parent@)[k],
            forall|k: Seq<char>|
                map_of(out@).contains_key(k) <==> (map_of(filtered).contains_key(k) || exists|
                    j: int,
                |
                    0 <= j < i && spec.vars@[j].0@ == k),
            forall|k: Seq<char>, j: int|
                0 <= j < i && spec.vars@[j].0@ == k ==> map_of(out@)[k] == spec.vars@[j].1@,
            forall|k: Seq<char>|
                map_of(out@).contains_key(k) && !(exists|j: int|
                    0 <= j < i && spec.vars@[j].0@ == k) ==> map_of(out@)[k] == map_of(filtered)[k],
        decreases spec.vars@.len() - i,
    {
        let ghost out0 = out@;
        proof {
            assert(forall|k: Seq<char>|
                map_of(out0).contains_key(k) <==> (map_of(filtered).contains_key(k) || exists|
                    j: int,
                | 0 <= j < i && spec.vars@[j].0@ == k));
        }
        let name = spec.vars[i].0.clone();
        let value = spec.vars[i].1.clone();
        out.push((name, value));
        proof {
            assert(out@.drop_last() == out0);
            assert(out@.subrange(0, filtered.len() as int) == out0.subrange(
                0,
                filtered.len() as int,
            ));
            lemma_map_of_index(spec.vars@, i as int);
            let ghost vk = spec.vars@[i as int].0@;
            assert(map_of(out@) == map_of(out0).insert(vk, spec.vars@[i as int].1@));
            assert forall|a: int, b: int| 0 <= a < b < out@.len() implies out@[a].0@
                != out@[b].0@ by {
                if b == out@.len() - 1 {
                    lemma_map_of_index(out0, a);
                    let ka = out0[a].0@;
                    if map_of(filtered).contains_key(ka) {
                        assert(!map_of(spec.vars@).contains_key(ka));
                        assert(ka != vk);
                    } else {
                        let j = choose|j: int| 0 <= j < i && spec.vars@[j].0@ == ka;
                        assert(spec.vars@[j].0@ != spec.vars@[i as int].0@);
                    }
                }
            }
            assert forall|k: Seq<char>, j: int|
                0 <= j < i + 1 && spec.vars@[j].0@ == k implies map_of(out@)[k] == spec.vars@[j].1@
            by {
                if j < i {
                    assert(spec.vars@[j].0@ != spec.vars@[i as int].0@);
                    assert(k != vk);
                }
            }
            assert forall|k: Seq<char>|
                map_of(out@).contains_key(k) && !(exists|j: int|
                    0 <= j < i + 1 && spec.vars@[j].0@ == k) implies map_of(out@)[k] == map_of(
                filtered,
            )[k] by {
                assert(k != vk);
                assert(map_of(out0).contains_key(k));
            }
            assert forall|k: Seq<char>|
                map_of(out@).contains_key(k) implies (map_of(filtered).contains_key(k) || exists|
                j: int,
            | 0 <= j < i + 1 && spec.vars@[j].0@ == k) by {
                if k == vk {
                    assert(spec.vars@[i as int].0@ == k);
                } else {
                    assert(map_of(out0).contains_key(k));
                }
            }
            assert forall|k: Seq<char>|
                (map_of(filtered).contains_key(k) || exists|j: int|
                    0 <= j < i + 1 && spec.vars@[j].0@ == k) implies map_of(out@).contains_key(k)
            by {
                if k != vk {
                    if exists|j: int| 0 <= j < i + 1 && spec.vars@[j].0@ == k {
                        let j = choose|j: int| 0 <= j < i + 1 && spec.vars@[j].0@ == k;
                        assert(j < i);
                        assert(map_of(out0).contains_key(k));
                    } else {
                        assert(map_of(out0).contains_key(k));
                    }
                }
            }
        }
        i += 1;
    }
    proof {
        assert(i == spec.vars@.len());
        assert(forall|k: Seq<char>|
            map_of(out@).contains_key(k) <==> (map_of(filtered).contains_key(k) || exists|j: int|
                0 <= j < i && spec.vars@[j].0@ == k));
        assert forall|k: Seq<char>| map_of(out@).contains_key(k) implies (map_of(
            filtered,
        ).contains_key(k) || exists|j: int|
            0 <= j < spec.vars@.len() && spec.vars@[j].0@ == k) by {
            if !map_of(filtered).contains_key(k) {
                let j = choose|j: int| 0 <= j < i && spec.vars@[j].0@ == k;
                assert(0 <= j < spec.vars@.len() && spec.vars@[j].0@ == k);
            }
        }
        assert forall|k: Seq<char>|
            (map_of(filtered).contains_key(k) || exists|j: int|
                0 <= j < spec.vars@.len() && spec.vars@[j].0@ == k) implies map_of(
            out@,
        ).contains_key(k) by {
            if exists|j: int| 0 <= j < spec.vars@.len() && spec.vars@[j].0@ == k {
                let j = choose|j: int| 0 <= j < spec.vars@.len() && spec.vars@[j].0@ == k;
                assert(0 <= j < i && spec.vars@[j].0@ == k);
            }
        }
        assert(forall|k: Seq<char>|
            map_of(filtered).contains_key(k) <==> exists|j: int|
                0 <= j < parent@.len() && parent@[j].0@ == k && admits(&spec.inherit, k)
                    && !map_of(spec.vars@).contains_key(k));
        assert forall|k: Seq<char>| map_of(spec.vars@).contains_key(k) implies map_of(out@)[k]
            == map_of(spec.vars@)[k] by {
            lemma_map_of_contains(spec.vars@, k);
            let j = choose|j: int| 0 <= j < spec.vars@.len() && spec.vars@[j].0@ == k;
            lemma_map_of_index(spec.vars@, j);
        }
        assert forall|k: Seq<char>| #![trigger map_of(out@).contains_key(k)]
            map_of(out@).contains_key(k) implies (map_of(
            spec.vars@,
        ).contains_key(k) || (map_of(parent@).contains_key(k) && admits(&spec.inherit, k))) by {
            lemma_map_of_contains(spec.vars@, k);
            lemma_map_of_contains(parent@, k);
            assert(map_of(filtered).contains_key(k) || exists|j: int|
                0 <= j < spec.vars@.len() && spec.vars@[j].0@ == k);
            if map_of(filtered).contains_key(k) {
                assert(exists|j: int|
                    0 <= j < parent@.len() && parent@[j].0@ == k && admits(&spec.inherit, k)
                        && !map_of(spec.vars@).contains_key(k));
            }
        }
        assert forall|k: Seq<char>| #![trigger map_of(out@).contains_key(k)]
            (map_of(spec.vars@).contains_key(k) || (map_of(parent@).contains_key(k) && admits(
                &spec.inherit,
                k,
            ))) implies map_of(out@).contains_key(k) by {
            lemma_map_of_contains(spec.vars@, k);
            lemma_map_of_contains(parent@, k);
            if !map_of(spec.vars@).contains_key(k) {
                let j = choose|j: int| 0 <= j < parent@.len() && parent@[j].0@ == k;
                assert(0 <= j < parent@.len() && parent@[j].0@ == k && admits(&spec.inherit, k)
                    && !map_of(spec.vars@).contains_key(k));
                assert(map_of(filtered).contains_key(k));
            } else {
                let j = choose|j: int| 0 <= j < spec.vars@.len() && spec.vars@[j].0@ == k;
                assert(0 <= j < i && spec.vars@[j].0@ == k);
                assert(exists|j: int| 0 <= j < i && spec.vars@[j].0@ == k);
            }
        }
        assert(forall|k: Seq<char>|
            map_of(out@).contains_key(k) <==> (map_of(spec.vars@).contains_key(k) || (map_of(
                parent@,
            ).contains_key(k) && admits(&spec.inherit, k))));
        assert forall|k: Seq<char>|
            !map_of(spec.vars@).contains_key(k) && map_of(parent@).contains_key(k) && admits(
                &spec.inherit,
                k,
            ) implies map_of(out@)[k] == map_of(parent@)[k] by {
            lemma_map_of_contains(spec.vars@, k);
            lemma_map_of_contains(parent@, k);
        }
    }
    out
}

} // verus!
