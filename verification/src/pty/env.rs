//! The environment of a child process.
//!
//! Names and values are UTF-16. Names differ only by more than the case of
//! their ASCII letters.
use vstd::prelude::*;

verus! {

/// A variable.
#[derive(Debug)]
pub struct EnvVar {
    pub key: Vec<u16>,
    pub value: Vec<u16>,
}

/// The units of a variable.
#[verifier::ext_equal]
pub struct VarView {
    pub key: Seq<u16>,
    pub value: Seq<u16>,
}

impl View for EnvVar {
    type V = VarView;

    open spec fn view(&self) -> VarView {
        VarView { key: self.key@, value: self.value@ }
    }
}

/// The units of a list of variables.
pub open spec fn vars(list: Seq<EnvVar>) -> Seq<VarView> {
    list.map_values(|v: EnvVar| v@)
}

/// The capital form of an ASCII letter; any other unit is its own.
pub open spec fn upper(unit: u16) -> u16 {
    if 0x61 <= unit <= 0x7a {
        (unit - 0x20) as u16
    } else {
        unit
    }
}

/// Whether two names are the same but for case.
pub open spec fn same_name(a: Seq<u16>, b: Seq<u16>) -> bool {
    &&& a.len() == b.len()
    &&& forall|i: int| 0 <= i < a.len() ==> upper(#[trigger] a[i]) == upper(b[i])
}

/// Whether a name occurs among the first `n` variables.
pub open spec fn named_before(list: Seq<VarView>, key: Seq<u16>, n: int) -> bool {
    exists|i: int| 0 <= i < n && same_name((#[trigger] list[i]).key, key)
}

/// The first `n` variables without those whose name came before.
pub open spec fn kept(list: Seq<VarView>, n: int) -> Seq<VarView>
    decreases n,
{
    if n <= 0 {
        Seq::empty()
    } else if named_before(list, list[n - 1].key, n - 1) {
        kept(list, n - 1)
    } else {
        kept(list, n - 1).push(list[n - 1])
    }
}

/// A variable in an environment block: name, `=`, value and a zero.
pub open spec fn var_units(v: VarView) -> Seq<u16> {
    v.key + seq![0x3du16] + v.value + seq![0u16]
}

/// The variables of a block, one after the other.
pub open spec fn block_of(list: Seq<VarView>, n: int) -> Seq<u16>
    decreases n,
{
    if n <= 0 {
        Seq::empty()
    } else {
        block_of(list, n - 1) + var_units(list[n - 1])
    }
}

/// The environment block of variables, each name once, the first value wins.
pub open spec fn env_block(list: Seq<VarView>) -> Seq<u16> {
    let distinct = kept(list, list.len() as int);
    block_of(distinct, distinct.len() as int).push(0)
}

fn to_upper(unit: u16) -> (out: u16)
    ensures
        out == upper(unit),
{
    if 0x61 <= unit && unit <= 0x7a {
        unit - 0x20
    } else {
        unit
    }
}

fn is_same_name(a: &Vec<u16>, b: &Vec<u16>) -> (same: bool)
    ensures
        same == same_name(a@, b@),
{
    if a.len() != b.len() {
        return false;
    }
    let mut i: usize = 0;
    while i < a.len()
        invariant
            i <= a@.len(),
            a@.len() == b@.len(),
            forall|j: int| 0 <= j < i ==> upper(#[trigger] a@[j]) == upper(b@[j]),
        decreases a@.len() - i,
    {
        if to_upper(a[i]) != to_upper(b[i]) {
            assert(upper(a@[i as int]) != upper(b@[i as int]));
            return false;
        }
        i += 1;
    }
    true
}

fn push_units(block: &mut Vec<u16>, units: &Vec<u16>)
    ensures
        final(block)@ == old(block)@ + units@,
{
    let mut i: usize = 0;
    assert(block@ =~= old(block)@ + units@.take(0));
    while i < units.len()
        invariant
            i <= units@.len(),
            block@ == old(block)@ + units@.take(i as int),
        decreases units@.len() - i,
    {
        block.push(units[i]);
        i += 1;
        assert(block@ =~= old(block)@ + units@.take(i as int));
    }
    assert(units@.take(i as int) =~= units@);
}

/// Adds a variable to an environment block.
pub fn add_windows_env_key_value_to_block(block: &mut Vec<u16>, key: &Vec<u16>, value: &Vec<u16>)
    ensures
        final(block)@ == old(block)@ + var_units(VarView { key: key@, value: value@ }),
{
    push_units(block, key);
    block.push(0x3d);
    push_units(block, value);
    block.push(0);
    assert(block@ =~= old(block)@ + var_units(VarView { key: key@, value: value@ }));
}

fn was_named(list: &Vec<EnvVar>, n: usize, Ghost(all): Ghost<Seq<VarView>>, at: usize) -> (named:
    bool)
    requires
        at < list@.len(),
        n <= at,
        all == vars(list@),
    ensures
        named == named_before(all, all[at as int].key, n as int),
{
    let mut i: usize = 0;
    while i < n
        invariant
            i <= n,
            n <= at,
            at < list@.len(),
            all == vars(list@),
            forall|j: int| 0 <= j < i ==> !same_name((#[trigger] all[j]).key, all[at as int].key),
        decreases n - i,
    {
        if is_same_name(&list[i].key, &list[at].key) {
            assert(same_name(all[i as int].key, all[at as int].key));
            return true;
        }
        assert(!same_name(all[i as int].key, all[at as int].key));
        i += 1;
    }
    false
}

/// The places of those among the first `n` variables whose name came before.
pub open spec fn omitted(list: Seq<VarView>, n: int) -> Seq<usize>
    decreases n,
{
    if n <= 0 {
        Seq::empty()
    } else if named_before(list, list[n - 1].key, n - 1) {
        omitted(list, n - 1).push((n - 1) as usize)
    } else {
        omitted(list, n - 1)
    }
}

/// The places of the variables that an environment block leaves out, because
/// their name came before.
pub fn omitted_vars(list: &Vec<EnvVar>) -> (places: Vec<usize>)
    ensures
        places@ == omitted(vars(list@), list@.len() as int),
{
    let ghost all = vars(list@);
    let mut places: Vec<usize> = Vec::new();
    let mut i: usize = 0;
    while i < list.len()
        invariant
            i <= list@.len(),
            all == vars(list@),
            places@ == omitted(all, i as int),
        decreases list@.len() - i,
    {
        if was_named(list, i, Ghost(all), i) {
            places.push(i);
        }
        i += 1;
    }
    places
}

/// The environment block of a child with variables of its own, which go before
/// those that it inherits. Nothing, if it has none of its own: then it inherits
/// all. A name counts once; its first value does.
pub fn convert_custom_env(custom: Vec<EnvVar>, inherited: Vec<EnvVar>) -> (block: Option<Vec<u16>>)
    ensures
        match block {
            Some(block) => {
                &&& custom@.len() > 0
                &&& block@ == env_block(vars(custom@) + vars(inherited@))
            },
            None => custom@.len() == 0,
        },
{
    if custom.len() == 0 {
        return None;
    }
    let ghost all = vars(custom@) + vars(inherited@);
    let mut list = custom;
    let mut rest = inherited;
    list.append(&mut rest);
    assert(vars(list@) =~= all);
    let mut block: Vec<u16> = Vec::new();
    let mut i: usize = 0;
    while i < list.len()
        invariant
            i <= list@.len(),
            all == vars(list@),
            block@ == block_of(kept(all, i as int), kept(all, i as int).len() as int),
        decreases list@.len() - i,
    {
        let ghost before = kept(all, i as int);
        assert(all[i as int] == list@[i as int]@);
        if !was_named(&list, i, Ghost(all), i) {
            add_windows_env_key_value_to_block(&mut block, &list[i].key, &list[i].value);
            proof {
                let now = before.push(all[i as int]);
                assert(kept(all, i + 1) == now);
                lemma_block_prefix(before, now, before.len() as int);
                assert(block@ == block_of(now, now.len() as int));
            }
        }
        i += 1;
    }
    block.push(0);
    Some(block)
}

proof fn lemma_block_prefix(a: Seq<VarView>, b: Seq<VarView>, n: int)
    requires
        n <= a.len(),
        n <= b.len(),
        forall|i: int| 0 <= i < n ==> a[i] == b[i],
    ensures
        block_of(a, n) == block_of(b, n),
    decreases n,
{
    if n > 0 {
        lemma_block_prefix(a, b, n - 1);
    }
}

proof fn lemma_kept_is_var(list: Seq<VarView>, n: int, k: int)
    requires
        0 <= n <= list.len(),
        0 <= k < kept(list, n).len(),
    ensures
        exists|i: int| 0 <= i < n && #[trigger] list[i] == kept(list, n)[k],
    decreases n,
{
    if n > 0 {
        if k < kept(list, n - 1).len() {
            lemma_kept_is_var(list, n - 1, k);
        } else {
            assert(list[n - 1] == kept(list, n)[k]);
        }
    }
}

/// No name stands twice in an environment block.
pub proof fn law_names_stand_once(list: Seq<VarView>, n: int, a: int, b: int)
    requires
        0 <= n <= list.len(),
        0 <= a < b < kept(list, n).len(),
    ensures
        !same_name(kept(list, n)[a].key, kept(list, n)[b].key),
    decreases n,
{
    if n > 0 {
        if b < kept(list, n - 1).len() {
            law_names_stand_once(list, n - 1, a, b);
        } else {
            lemma_kept_is_var(list, n - 1, a);
            let i = choose|i: int| 0 <= i < n - 1 && #[trigger] list[i] == kept(list, n - 1)[a];
            assert(list[i] == kept(list, n)[a]);
        }
    }
}

/// The variables of a child's own win over those that it inherits: they are
/// kept as if there were no others.
pub proof fn law_own_variables_come_first(own: Seq<VarView>, inherited: Seq<VarView>, n: int)
    requires
        0 <= n <= own.len(),
    ensures
        kept(own + inherited, n) == kept(own, n),
    decreases n,
{
    let all = own + inherited;
    if n > 0 {
        law_own_variables_come_first(own, inherited, n - 1);
        assert(all[n - 1] == own[n - 1]);
        let key = own[n - 1].key;
        if named_before(own, key, n - 1) {
            let i = choose|i: int| 0 <= i < n - 1 && same_name((#[trigger] own[i]).key, key);
            assert(all[i] == own[i]);
            assert(same_name(all[i].key, key));
        }
        if named_before(all, key, n - 1) {
            let i = choose|i: int| 0 <= i < n - 1 && same_name((#[trigger] all[i]).key, key);
            assert(all[i] == own[i]);
            assert(same_name(own[i].key, key));
        }
    }
}

/// Whether two units are one letter in two cases, or one unit.
pub open spec fn same_but_case(a: u16, b: u16) -> bool {
    ||| a == b
    ||| 0x61 <= a <= 0x7a && b == a - 32
    ||| 0x61 <= b <= 0x7a && a == b - 32
}

/// Names are the same if they are unit for unit, but for the case of letters.
pub proof fn law_same_names(a: Seq<u16>, b: Seq<u16>)
    ensures
        same_name(a, b) <==> a.len() == b.len() && forall|i: int|
            0 <= i < a.len() ==> same_but_case(#[trigger] a[i], b[i]),
{
    if a.len() == b.len() && forall|i: int|
        0 <= i < a.len() ==> same_but_case(#[trigger] a[i], b[i]) {
        assert forall|i: int| 0 <= i < a.len() implies upper(#[trigger] a[i]) == upper(b[i]) by {
            assert(same_but_case(a[i], b[i]));
        }
    }
}

/// An environment block without variables is a zero.
pub proof fn law_empty_block()
    ensures
        env_block(Seq::empty()) == seq![0u16],
{
    assert(env_block(Seq::empty()) =~= seq![0u16]);
}

/// One variable more changes an environment block by name, `=`, value and a zero
/// before its last zero; or not at all, if there was one of the same name.
pub proof fn law_block_with_one_more(list: Seq<VarView>, v: VarView)
    ensures
        env_block(list.push(v)) == if exists|i: int|
            0 <= i < list.len() && same_name((#[trigger] list[i]).key, v.key) {
            env_block(list)
        } else {
            env_block(list).drop_last() + v.key + seq![0x3du16] + v.value + seq![0u16, 0u16]
        },
{
    let all = list.push(v);
    let n = list.len() as int;
    lemma_kept_prefix(list, all, n);
    assert(all[n] == v);
    let before = kept(list, n);
    if named_before(all, v.key, n) {
        let i = choose|i: int| 0 <= i < n && same_name((#[trigger] all[i]).key, v.key);
        assert(list[i] == all[i]);
        assert(same_name(list[i].key, v.key));
    } else {
        assert forall|i: int| 0 <= i < n implies !same_name((#[trigger] list[i]).key, v.key) by {
            assert(all[i] == list[i]);
        }
        let now = before.push(v);
        assert(kept(all, n + 1) == now);
        lemma_block_prefix(before, now, before.len() as int);
        assert(env_block(list).drop_last() =~= block_of(before, before.len() as int));
        assert(env_block(all) =~= env_block(list).drop_last() + v.key + seq![0x3du16] + v.value
            + seq![0u16, 0u16]);
    }
}

proof fn lemma_kept_prefix(a: Seq<VarView>, b: Seq<VarView>, n: int)
    requires
        0 <= n <= a.len(),
        n <= b.len(),
        forall|i: int| 0 <= i < n ==> a[i] == b[i],
    ensures
        kept(a, n) == kept(b, n),
    decreases n,
{
    if n > 0 {
        lemma_kept_prefix(a, b, n - 1);
        let key = a[n - 1].key;
        if named_before(a, key, n - 1) {
            let i = choose|i: int| 0 <= i < n - 1 && same_name((#[trigger] a[i]).key, key);
            assert(same_name(b[i].key, key));
        }
        if named_before(b, key, n - 1) {
            let i = choose|i: int| 0 <= i < n - 1 && same_name((#[trigger] b[i]).key, key);
            assert(same_name(a[i].key, key));
        }
    }
}

/// The variables that are left out are those whose name came before, and they are
/// told in order.
pub proof fn law_what_is_left_out(list: Seq<VarView>, n: int)
    requires
        0 <= n <= list.len(),
        n <= usize::MAX,
    ensures
        forall|k: int|
            0 <= k < n ==> (#[trigger] omitted(list, n).contains(k as usize) <==> exists|i: int|
                0 <= i < k && same_name((#[trigger] list[i]).key, list[k].key)),
        forall|a: int, b: int|
            0 <= a < b < omitted(list, n).len() ==> #[trigger] omitted(list, n)[a]
                < #[trigger] omitted(list, n)[b] < n,
        forall|a: int| 0 <= a < omitted(list, n).len() ==> #[trigger] omitted(list, n)[a] < n,
    decreases n,
{
    if n > 0 {
        law_what_is_left_out(list, n - 1);
        let before = omitted(list, n - 1);
        let now = omitted(list, n);
        let last = (n - 1) as usize;
        let named = named_before(list, list[n - 1].key, n - 1);
        if named {
            assert(now == before.push(last));
            assert(now[now.len() - 1] == last);
        }
        assert forall|k: int| 0 <= k < n implies (#[trigger] now.contains(k as usize) <==> exists|i: int|
            0 <= i < k && same_name((#[trigger] list[i]).key, list[k].key)) by {
            if k < n - 1 {
                assert(before.contains(k as usize) <==> exists|i: int|
                    0 <= i < k && same_name((#[trigger] list[i]).key, list[k].key));
                if before.contains(k as usize) {
                    let a = choose|a: int| 0 <= a < before.len() && before[a] == k as usize;
                    assert(now[a] == k as usize);
                }
                if now.contains(k as usize) {
                    let a = choose|a: int| 0 <= a < now.len() && now[a] == k as usize;
                    assert(before[a] == k as usize);
                }
            } else {
                if !named && now.contains(last) {
                    let a = choose|a: int| 0 <= a < now.len() && now[a] == last;
                    assert(before[a] == last);
                }
                if named {
                    let i = choose|i: int|
                        0 <= i < n - 1 && same_name((#[trigger] list[i]).key, list[n - 1].key);
                    assert(same_name(list[i].key, list[k].key));
                }
            }
        }
    }
}

} // verus!
