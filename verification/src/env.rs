//! The lexical environment: a node of key/value bindings plus an optional
//! parent. Nodes live in an arena (`Interp.envs`), and a child refers to its
//! parent by index; every parent index is strictly smaller than the child's
//! own index, so lookup chains always terminate.
//!
//! A node's bindings are modelled by `spec_find` over its data, where the
//! latest entry for a key wins; the chain lookup is `spec_env_get`.
use vstd::prelude::*;

use crate::types::MalExpression;
use crate::types::ValView;
use crate::types::val_view;
use crate::types::seq_view;
use crate::types::seq_view_props;
use crate::types::lemma_seq_view_skip;
use crate::types::str_eq;
use crate::types::strs_view;
use crate::types::vec_suffix;
use crate::types::wf_val;
use crate::types::lemma_wf_val_grow;

verus! {

/// One scope: its own bindings and the index of the enclosing scope, if any.
#[derive(Debug)]
pub struct Env {
    pub outer: Option<usize>,
    pub data: Vec<(String, MalExpression)>,
}

/// The latest binding for `k` in an association list, if any.
pub open spec fn spec_find(s: Seq<(String, MalExpression)>, k: Seq<char>) -> Option<ValView>
    decreases s.len(),
{
    if s.len() == 0 {
        None
    } else if s.last().0@ == k {
        Some(val_view(s.last().1))
    } else {
        spec_find(s.drop_last(), k)
    }
}

/// The value bound to `k` by binding names to values in order, where a later
/// binding of the same name shadows an earlier one, and the name `&` binds
/// the following name to the list of all remaining values and stops.
pub open spec fn spec_bind_lookup(
    names: Seq<Seq<char>>,
    vals: Seq<ValView>,
    k: Seq<char>,
) -> Option<ValView>
    decreases names.len(),
{
    if names.len() == 0 {
        None
    } else if names[0] == "&"@ {
        if names.len() > 1 && names[1] == k {
            Some(ValView::List(vals))
        } else {
            None
        }
    } else {
        let rest = spec_bind_lookup(names.skip(1), vals.skip(1), k);
        if rest is Some {
            rest
        } else if names[0] == k && vals.len() > 0 {
            Some(vals[0])
        } else {
            None
        }
    }
}

/// Whether a parameter list can be bound to an argument list: `&` must be
/// followed by a name, and otherwise every name needs an argument.
pub open spec fn spec_bind_ok(names: Seq<Seq<char>>, vals: Seq<ValView>) -> bool
    decreases names.len(),
{
    if names.len() == 0 {
        vals.len() == 0
    } else if names[0] == "&"@ {
        names.len() > 1
    } else {
        vals.len() > 0 && spec_bind_ok(names.skip(1), vals.skip(1))
    }
}

/// Where a binding's value can come from: one of the argument values, or
/// the rest-list of a suffix of them.
pub open spec fn bind_sourced(dv: ValView, vals: Seq<ValView>) -> bool {
    (exists|k: int| 0 <= k < vals.len() && dv == vals[k]) || (exists|k: int|
        0 <= k <= vals.len() && dv == ValView::List(vals.skip(k)))
}

impl Env {
    /// The binding this node itself gives to `k`, if any.
    pub open spec fn spec_lookup(self, k: Seq<char>) -> Option<ValView> {
        spec_find(self.data@, k)
    }

    /// A node whose own and stored values index into arenas of the given
    /// sizes, and whose parent link points strictly below `myidx`.
    pub open spec fn wf(self, myidx: nat, nenvs: nat, natoms: nat) -> bool {
        &&& (self.outer matches Some(o) ==> o < myidx)
        &&& forall|j: int|
            0 <= j < self.data@.len() ==> wf_val(val_view(#[trigger] self.data@[j].1), nenvs, natoms)
    }

    /// A fresh empty environment under the given parent.
    pub fn simple_new(outer: Option<usize>) -> (r: Result<Env, String>)
        ensures
            r matches Ok(e) && e.outer == outer && e.data@.len() == 0,
    {
        Ok(Env { outer, data: Vec::new() })
    }

    /// A fresh environment under `outer` binding each of `binds` to the
    /// matching element of `exprs`, with `&` rest-binding; binding fails when
    /// `&` is the last name or when a name has no matching argument.
    pub fn new(outer: Option<usize>, binds: &Vec<String>, exprs: &Vec<MalExpression>) -> (r:
        Result<Env, String>)
        ensures
            match r {
                Ok(e) => {
                    &&& spec_bind_ok(strs_view(binds@), seq_view(exprs@))
                    &&& e.outer == outer
                    &&& forall|k: Seq<char>|
                        #[trigger] e.spec_lookup(k) == spec_bind_lookup(
                            strs_view(binds@),
                            seq_view(exprs@),
                            k,
                        )
                    &&& forall|j: int|
                        0 <= j < e.data@.len() ==> bind_sourced(
                            val_view(#[trigger] e.data@[j].1),
                            seq_view(exprs@),
                        )
                },
                Err(_) => !spec_bind_ok(strs_view(binds@), seq_view(exprs@)),
            },
    {
        let ghost names = strs_view(binds@);
        let ghost vals = seq_view(exprs@);
        proof {
            seq_view_props(exprs@);
        }
        let mut data: Vec<(String, MalExpression)> = Vec::new();
        let n = binds.len();
        let m = exprs.len();
        proof {
            assert(names.skip(0) =~= names);
            assert(vals.skip(0) =~= vals);
            assert forall|k: Seq<char>|
                #[trigger] spec_bind_lookup(names, vals, k) == (
                match spec_bind_lookup(names.skip(0), vals.skip(0), k) {
                    Some(v) => Some(v),
                    None => spec_find(data@, k),
                }) by {
                assert(spec_find(data@, k) is None);
            }
        }
        let mut i: usize = 0;
        while i < n
            invariant
                0 <= i <= n,
                n == binds@.len(),
                m == exprs@.len(),
                names == strs_view(binds@),
                vals == seq_view(exprs@),
                names.len() == n,
                vals.len() == m,
                i <= m,
                spec_bind_ok(names, vals) == spec_bind_ok(names.skip(i as int), vals.skip(i as int)),
                forall|k: Seq<char>|
                    #[trigger] spec_bind_lookup(names, vals, k) == (
                    match spec_bind_lookup(names.skip(i as int), vals.skip(i as int), k) {
                        Some(v) => Some(v),
                        None => spec_find(data@, k),
                    }),
                forall|j: int|
                    0 <= j < data@.len() ==> bind_sourced(val_view(#[trigger] data@[j].1), vals),
            decreases n - i,
        {
            proof {
                assert(names.skip(i as int)[0] == names[i as int]);
                assert(names[i as int] == binds@[i as int]@);
                assert(names.skip(i as int).skip(1) =~= names.skip(i as int + 1));
                seq_view_props(exprs@);
            }
            if str_eq(binds[i].as_str(), "&") {
                if i + 1 < n {
                    proof {
                        assert(names.skip(i as int)[1] == names[i as int + 1]);
                        assert(names[i as int + 1] == binds@[i as int + 1]@);
                        lemma_seq_view_skip(exprs@, i as int);
                    }
                    let ghost dpre = data@;
                    let rest = MalExpression::List(vec_suffix(exprs, i));
                    data.push((binds[i + 1].clone(), rest));
                    proof {
                        assert(data@.drop_last() =~= dpre);
                        assert(data@.last().0@ == names[i as int + 1]);
                        assert(val_view(data@.last().1) == ValView::List(vals.skip(i as int)));
                        assert(bind_sourced(val_view(data@.last().1), vals));
                        assert forall|j: int| 0 <= j < data@.len() implies bind_sourced(
                            val_view(#[trigger] data@[j].1),
                            vals,
                        ) by {
                            if j < dpre.len() {
                                assert(data@[j] == dpre[j]);
                            } else {
                                assert(data@[j] == data@.last());
                            }
                        }
                        assert forall|k: Seq<char>|
                            #[trigger] spec_find(data@, k) == spec_bind_lookup(
                                names,
                                vals,
                                k,
                            ) by {
                            assert(spec_bind_lookup(names, vals, k) == (
                            match spec_bind_lookup(names.skip(i as int), vals.skip(i as int), k) {
                                Some(v) => Some(v),
                                None => spec_find(dpre, k),
                            }));
                        }
                    }
                    return Ok(Env { outer, data });
                } else {
                    return Err("no elements in binds after &".to_owned());
                }
            }
            if i < m {
                let ghost dpre = data@;
                data.push((binds[i].clone(), exprs[i].clone()));
                proof {
                    assert(vals.skip(i as int).skip(1) =~= vals.skip(i as int + 1));
                    assert(data@.drop_last() =~= dpre);
                    assert(data@.last().0@ == names[i as int]);
                    assert(val_view(data@.last().1) == vals[i as int]);
                    assert(vals.skip(i as int)[0] == vals[i as int]);
                    assert(vals.skip(i as int).len() > 0);
                    assert forall|k: Seq<char>|
                        #[trigger] spec_bind_lookup(names, vals, k) == (
                        match spec_bind_lookup(
                            names.skip(i as int + 1),
                            vals.skip(i as int + 1),
                            k,
                        ) {
                            Some(v) => Some(v),
                            None => spec_find(data@, k),
                        }) by {
                        assert(spec_bind_lookup(names, vals, k) == (
                        match spec_bind_lookup(names.skip(i as int), vals.skip(i as int), k) {
                            Some(v) => Some(v),
                            None => spec_find(dpre, k),
                        }));
                    }
                }
            } else {
                proof {
                    assert(vals.skip(i as int).len() == 0);
                }
                return Err("not enough arguments to bind in function call".to_owned());
            }
            i = i + 1;
        }
        proof {
            assert(names.skip(i as int).len() == 0);
        }
        if i < m {
            proof {
                assert(vals.skip(i as int).len() > 0);
            }
            return Err("too many arguments in function call".to_owned());
        }
        proof {
            assert(vals.skip(i as int).len() == 0);
        }
        Ok(Env { outer, data })
    }

    /// Insert or overwrite a binding in this node only.
    pub fn set(&mut self, key: &str, val: MalExpression)
        ensures
            final(self).outer == old(self).outer,
            forall|k: Seq<char>|
                #[trigger] final(self).spec_lookup(k) == if k == key@ {
                    Some(val_view(val))
                } else {
                    old(self).spec_lookup(k)
                },
            final(self).data@.len() == old(self).data@.len() + 1,
            final(self).data@.last().1 == val,
            forall|j: int| 0 <= j < old(self).data@.len() ==> final(self).data@[j] == old(
                self,
            ).data@[j],
    {
        self.data.push((key.to_owned(), val));
        proof {
            assert(self.data@.drop_last() =~= old(self).data@);
        }
    }

    /// The binding `key` has when looked up from environment `env_idx`,
    /// walking parent links: the child shadows the parent.
    pub fn get(envs: &Vec<Env>, env_idx: usize, key: &str) -> (r: Option<MalExpression>)
        requires
            env_idx < envs@.len(),
            forall|j: int|
                0 <= j < envs@.len() ==> (#[trigger] envs@[j].outer matches Some(o) ==> o < j),
        ensures
            match r {
                Some(v) => spec_env_get(envs@, env_idx as int, key@) == Some(val_view(v)),
                None => spec_env_get(envs@, env_idx as int, key@) is None,
            },
    {
        let mut cur = env_idx;
        loop
            invariant
                cur < envs@.len(),
                forall|j: int|
                    0 <= j < envs@.len() ==> (#[trigger] envs@[j].outer matches Some(o) ==> o < j),
                spec_env_get(envs@, env_idx as int, key@) == spec_env_get(envs@, cur as int, key@),
            decreases cur,
        {
            match lookup_local(&envs[cur].data, key) {
                Some(v) => {
                    return Some(v.clone());
                },
                None => {
                    match envs[cur].outer {
                        Some(o) => {
                            cur = o;
                        },
                        None => {
                            return None;
                        },
                    }
                },
            }
        }
    }

    /// The index of the root of the chain that `env_idx` belongs to.
    pub fn get_env_top_level(envs: &Vec<Env>, env_idx: usize) -> (r: usize)
        requires
            env_idx < envs@.len(),
            forall|j: int|
                0 <= j < envs@.len() ==> (#[trigger] envs@[j].outer matches Some(o) ==> o < j),
        ensures
            r < envs@.len(),
            envs@[r as int].outer is None,
            r as int == chain_root(envs@, env_idx as int),
    {
        let mut cur = env_idx;
        loop
            invariant
                cur < envs@.len(),
                forall|j: int|
                    0 <= j < envs@.len() ==> (#[trigger] envs@[j].outer matches Some(o) ==> o < j),
                chain_root(envs@, env_idx as int) == chain_root(envs@, cur as int),
            decreases cur,
        {
            match envs[cur].outer {
                Some(o) => {
                    cur = o;
                },
                None => {
                    return cur;
                },
            }
        }
    }
}

/// The root that environment `i` reaches by following its parent links.
pub open spec fn chain_root(envs: Seq<Env>, i: int) -> int
    decreases i,
{
    if !(0 <= i < envs.len()) {
        i
    } else {
        match envs[i].outer {
            Some(o) => if o < i {
                chain_root(envs, o as int)
            } else {
                i
            },
            None => i,
        }
    }
}

/// The binding `k` resolves to from environment `i`, walking parent links.
pub open spec fn spec_env_get(envs: Seq<Env>, i: int, k: Seq<char>) -> Option<ValView>
    decreases i,
{
    if !(0 <= i < envs.len()) {
        None
    } else {
        match spec_find(envs[i].data@, k) {
            Some(v) => Some(v),
            None => match envs[i].outer {
                Some(o) => if o < i {
                    spec_env_get(envs, o as int, k)
                } else {
                    None
                },
                None => None,
            },
        }
    }
}

/// Scan an association list from the end for the latest binding of `key`.
fn lookup_local<'a>(data: &'a Vec<(String, MalExpression)>, key: &str) -> (r: Option<
    &'a MalExpression,
>)
    ensures
        match r {
            Some(v) => spec_find(data@, key@) == Some(val_view(*v)),
            None => spec_find(data@, key@) is None,
        },
{
    let n = data.len();
    proof {
        assert(data@.subrange(0, n as int) =~= data@);
    }
    let mut i = n;
    while i > 0
        invariant
            0 <= i <= n,
            n == data@.len(),
            spec_find(data@, key@) == spec_find(data@.subrange(0, i as int), key@),
        decreases i,
    {
        i = i - 1;
        proof {
            assert(data@.subrange(0, i as int + 1).last() == data@[i as int]);
            assert(data@.subrange(0, i as int + 1).drop_last() =~= data@.subrange(0, i as int));
        }
        if str_eq(data[i].0.as_str(), key) {
            return Some(&data[i].1);
        }
    }
    proof {
        assert(data@.subrange(0, 0).len() == 0);
    }
    None
}

/// The interpreter's state: the environment arena, the atom cells, and the
/// lines that the printing primitives have produced.
#[derive(Debug)]
pub struct Interp {
    pub envs: Vec<Env>,
    pub atoms: Vec<MalExpression>,
    pub out: Vec<String>,
}

/// Well-formedness of the whole state: the arena is nonempty, every node's
/// parent link points strictly below it, and every stored value's indices
/// lie inside the arenas.
pub open spec fn interp_wf(it: Interp) -> bool {
    &&& it.envs@.len() >= 1
    &&& forall|j: int|
        0 <= j < it.envs@.len() ==> (#[trigger] it.envs@[j]).wf(
            j as nat,
            it.envs@.len() as nat,
            it.atoms@.len() as nat,
        )
    &&& forall|a: int|
        0 <= a < it.atoms@.len() ==> wf_val(
            val_view(#[trigger] it.atoms@[a]),
            it.envs@.len() as nat,
            it.atoms@.len() as nat,
        )
}

impl Interp {
    /// The sizes against which stored values must be well formed.
    pub open spec fn nenvs(self) -> nat {
        self.envs@.len() as nat
    }

    pub open spec fn natoms(self) -> nat {
        self.atoms@.len() as nat
    }

    /// Append a new environment node and return its index.
    pub fn push_env(&mut self, e: Env) -> (idx: usize)
        requires
            interp_wf(*old(self)),
            e.outer matches Some(o) ==> o < old(self).envs@.len(),
            forall|j: int|
                0 <= j < e.data@.len() ==> wf_val(
                    val_view(#[trigger] e.data@[j].1),
                    old(self).nenvs(),
                    old(self).natoms(),
                ),
        ensures
            interp_wf(*final(self)),
            idx == old(self).envs@.len(),
            final(self).envs@ == old(self).envs@.push(e),
            final(self).atoms@ == old(self).atoms@,
            final(self).out@ == old(self).out@,
    {
        let idx = self.envs.len();
        self.envs.push(e);
        proof {
            let n2 = self.envs@.len() as nat;
            let m2 = self.atoms@.len() as nat;
            assert forall|j: int| 0 <= j < self.envs@.len() implies (
            #[trigger] self.envs@[j]).wf(j as nat, n2, m2) by {
                if j < idx {
                    assert(self.envs@[j] == old(self).envs@[j]);
                    assert(old(self).envs@[j].wf(j as nat, old(self).nenvs(), m2));
                    assert forall|k: int| 0 <= k < self.envs@[j].data@.len() implies wf_val(
                        val_view(#[trigger] self.envs@[j].data@[k].1),
                        n2,
                        m2,
                    ) by {
                        lemma_wf_val_grow(
                            val_view(self.envs@[j].data@[k].1),
                            old(self).nenvs(),
                            m2,
                            n2,
                            m2,
                        );
                    }
                } else {
                    assert(self.envs@[j] == e);
                    assert forall|k: int| 0 <= k < e.data@.len() implies wf_val(
                        val_view(#[trigger] e.data@[k].1),
                        n2,
                        m2,
                    ) by {
                        lemma_wf_val_grow(val_view(e.data@[k].1), old(self).nenvs(), m2, n2, m2);
                    }
                }
            }
            assert forall|a: int| 0 <= a < self.atoms@.len() implies wf_val(
                val_view(#[trigger] self.atoms@[a]),
                n2,
                m2,
            ) by {
                lemma_wf_val_grow(val_view(self.atoms@[a]), old(self).nenvs(), m2, n2, m2);
            }
        }
        idx
    }

    /// Bind `key` to `val` in the environment node `env_idx`.
    pub fn env_set(&mut self, env_idx: usize, key: &str, val: MalExpression)
        requires
            interp_wf(*old(self)),
            env_idx < old(self).envs@.len(),
            wf_val(val_view(val), old(self).nenvs(), old(self).natoms()),
        ensures
            interp_wf(*final(self)),
            final(self).envs@.len() == old(self).envs@.len(),
            final(self).atoms@ == old(self).atoms@,
            final(self).out@ == old(self).out@,
            final(self).envs@[env_idx as int].outer == old(self).envs@[env_idx as int].outer,
            forall|k: Seq<char>|
                #[trigger] final(self).envs@[env_idx as int].spec_lookup(k) == if k == key@ {
                    Some(val_view(val))
                } else {
                    old(self).envs@[env_idx as int].spec_lookup(k)
                },
            forall|j: int|
                0 <= j < old(self).envs@.len() && j != env_idx ==> final(self).envs@[j] == old(
                    self,
                ).envs@[j],
    {
        let ghost valg = val;
        self.envs[env_idx].set(key, val);
        proof {
            let n2 = self.envs@.len() as nat;
            let m2 = self.atoms@.len() as nat;
            assert forall|j: int| 0 <= j < self.envs@.len() implies (
            #[trigger] self.envs@[j]).wf(j as nat, n2, m2) by {
                if j != env_idx {
                    assert(self.envs@[j] == old(self).envs@[j]);
                } else {
                    assert forall|k: int| 0 <= k < self.envs@[j].data@.len() implies wf_val(
                        val_view(#[trigger] self.envs@[j].data@[k].1),
                        n2,
                        m2,
                    ) by {
                        if k < old(self).envs@[j].data@.len() {
                            assert(self.envs@[j].data@[k] == old(self).envs@[j].data@[k]);
                        } else {
                            assert(self.envs@[j].data@[k].1 == valg);
                        }
                    }
                }
            }
        }
    }

    /// Append a fresh atom cell holding `val` and return its index.
    pub fn push_atom(&mut self, val: MalExpression) -> (idx: usize)
        requires
            interp_wf(*old(self)),
            wf_val(val_view(val), old(self).nenvs(), old(self).natoms()),
        ensures
            interp_wf(*final(self)),
            idx == old(self).atoms@.len(),
            final(self).atoms@ == old(self).atoms@.push(val),
            final(self).envs@ == old(self).envs@,
            final(self).out@ == old(self).out@,
    {
        let idx = self.atoms.len();
        self.atoms.push(val);
        proof {
            let n2 = self.envs@.len() as nat;
            let m2 = self.atoms@.len() as nat;
            assert forall|j: int| 0 <= j < self.envs@.len() implies (
            #[trigger] self.envs@[j]).wf(j as nat, n2, m2) by {
                assert(old(self).envs@[j].wf(j as nat, n2, old(self).natoms()));
                assert forall|k: int| 0 <= k < self.envs@[j].data@.len() implies wf_val(
                    val_view(#[trigger] self.envs@[j].data@[k].1),
                    n2,
                    m2,
                ) by {
                    lemma_wf_val_grow(
                        val_view(self.envs@[j].data@[k].1),
                        n2,
                        old(self).natoms(),
                        n2,
                        m2,
                    );
                }
            }
            assert forall|a: int| 0 <= a < self.atoms@.len() implies wf_val(
                val_view(#[trigger] self.atoms@[a]),
                n2,
                m2,
            ) by {
                if a < old(self).atoms@.len() {
                    lemma_wf_val_grow(val_view(self.atoms@[a]), n2, old(self).natoms(), n2, m2);
                } else {
                    lemma_wf_val_grow(val_view(self.atoms@[a]), n2, old(self).natoms(), n2, m2);
                }
            }
        }
        idx
    }

    /// The current contents of an atom cell.
    pub fn atom_get(&self, idx: usize) -> (r: MalExpression)
        requires
            interp_wf(*self),
            idx < self.atoms@.len(),
        ensures
            val_view(r) == val_view(self.atoms@[idx as int]),
            wf_val(val_view(r), self.nenvs(), self.natoms()),
    {
        self.atoms[idx].clone()
    }

    /// Replace the contents of an atom cell.
    pub fn atom_set(&mut self, idx: usize, val: MalExpression)
        requires
            interp_wf(*old(self)),
            idx < old(self).atoms@.len(),
            wf_val(val_view(val), old(self).nenvs(), old(self).natoms()),
        ensures
            interp_wf(*final(self)),
            final(self).atoms@ == old(self).atoms@.update(idx as int, val),
            final(self).envs@ == old(self).envs@,
            final(self).out@ == old(self).out@,
    {
        self.atoms.set(idx, val);
        proof {
            let n2 = self.envs@.len() as nat;
            let m2 = self.atoms@.len() as nat;
            assert forall|a: int| 0 <= a < self.atoms@.len() implies wf_val(
                val_view(#[trigger] self.atoms@[a]),
                n2,
                m2,
            ) by {
                if a != idx {
                    assert(self.atoms@[a] == old(self).atoms@[a]);
                }
            }
        }
    }

    /// Record a line of output from a printing primitive.
    pub fn push_out(&mut self, line: String)
        requires
            interp_wf(*old(self)),
        ensures
            interp_wf(*final(self)),
            final(self).out@ == old(self).out@.push(line),
            final(self).envs@ == old(self).envs@,
            final(self).atoms@ == old(self).atoms@,
    {
        self.out.push(line);
    }
}

/// Chain lookups below an unchanged prefix are unchanged when the arena
/// grows or later nodes change.
pub proof fn lemma_env_get_prefix(envs: Seq<Env>, envs2: Seq<Env>, i: int, k: Seq<char>)
    requires
        envs.len() <= envs2.len(),
        forall|j: int| 0 <= j < envs.len() ==> envs2[j] == #[trigger] envs[j],
        0 <= i < envs.len(),
    ensures
        spec_env_get(envs2, i, k) == spec_env_get(envs, i, k),
    decreases i,
{
    assert(envs2[i] == envs[i]);
    if spec_find(envs[i].data@, k) is None {
        match envs[i].outer {
            Some(o) => {
                if o < i {
                    lemma_env_get_prefix(envs, envs2, o as int, k);
                }
            },
            None => {},
        }
    }
}

/// A value found in a well-formed association list is well formed.
pub proof fn lemma_spec_find_wf(s: Seq<(String, MalExpression)>, k: Seq<char>, n: nat, m: nat)
    requires
        forall|j: int| 0 <= j < s.len() ==> wf_val(val_view(#[trigger] s[j].1), n, m),
    ensures
        spec_find(s, k) matches Some(v) ==> wf_val(v, n, m),
    decreases s.len(),
{
    if s.len() > 0 {
        assert(s.last() == s[s.len() - 1]);
        if s.last().0@ != k {
            assert forall|j: int| 0 <= j < s.drop_last().len() implies wf_val(
                val_view(#[trigger] s.drop_last()[j].1),
                n,
                m,
            ) by {
                assert(s.drop_last()[j] == s[j]);
            }
            lemma_spec_find_wf(s.drop_last(), k, n, m);
        }
    }
}

/// A value resolved through a well-formed environment chain is well formed.
pub proof fn lemma_env_get_wf(envs: Seq<Env>, i: int, k: Seq<char>, natoms: nat)
    requires
        forall|j: int|
            0 <= j < envs.len() ==> (#[trigger] envs[j]).wf(j as nat, envs.len() as nat, natoms),
        0 <= i < envs.len(),
    ensures
        spec_env_get(envs, i, k) matches Some(v) ==> wf_val(v, envs.len() as nat, natoms),
    decreases i,
{
    assert(envs[i].wf(i as nat, envs.len() as nat, natoms));
    lemma_spec_find_wf(envs[i].data@, k, envs.len() as nat, natoms);
    if spec_find(envs[i].data@, k) is None {
        match envs[i].outer {
            Some(o) => {
                if o < i {
                    lemma_env_get_wf(envs, o as int, k, natoms);
                }
            },
            None => {},
        }
    }
}

} // verus!
