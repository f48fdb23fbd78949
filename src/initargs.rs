use vstd::prelude::*;

use crate::system::ComponentId;

verus! {

/// The value held under a key: a string leaf, or an ordered array of nodes.
#[derive(Debug)]
pub enum ArgsValType {
    Str(String),
    Arr(Vec<ArgsKV>),
}

/// One node of the key/value tree handed to a component at boot.
#[derive(Debug)]
pub struct ArgsKV {
    pub key: String,
    pub val: ArgsValType,
}

/// The mathematical value of a key/value tree: keys and strings as character
/// sequences.
pub enum KvTree {
    Leaf(Seq<char>, Seq<char>),
    Node(Seq<char>, Seq<KvTree>),
}

/// The value of the node `kv`.
pub open spec fn tree(kv: ArgsKV) -> KvTree
    decreases kv, 0nat,
{
    match kv.val {
        ArgsValType::Str(s) => KvTree::Leaf(kv.key@, s@),
        ArgsValType::Arr(kvs) => KvTree::Node(kv.key@, trees(kvs@, kvs@.len())),
    }
}

/// The values of the first `i` of `kids`.
pub open spec fn trees(kids: Seq<ArgsKV>, i: nat) -> Seq<KvTree>
    decreases kids, i,
{
    if i == 0 || i > kids.len() {
        Seq::empty()
    } else {
        trees(kids, (i - 1) as nat).push(tree(kids[i - 1]))
    }
}

/// The values of all of `kids`, in order.
pub open spec fn forest(kids: Seq<ArgsKV>) -> Seq<KvTree> {
    trees(kids, kids.len())
}

proof fn lemma_trees(kids: Seq<ArgsKV>, i: nat)
    requires
        i <= kids.len(),
    ensures
        trees(kids, i).len() == i,
        forall|j: int| 0 <= j < i ==> #[trigger] trees(kids, i)[j] == tree(kids[j]),
    decreases i,
{
    if i > 0 {
        lemma_trees(kids, (i - 1) as nat);
    }
}

/// The value of a list of nodes is the list of their values.
pub proof fn lemma_forest(kids: Seq<ArgsKV>)
    ensures
        forest(kids).len() == kids.len(),
        forall|j: int| 0 <= j < kids.len() ==> #[trigger] forest(kids)[j] == tree(kids[j]),
{
    lemma_trees(kids, kids.len());
}

/// The value of a list of nodes is that of its items, one for one.
pub proof fn lemma_forest_eq(a: Seq<ArgsKV>, b: Seq<KvTree>)
    requires
        a.len() == b.len(),
        forall|j: int| 0 <= j < a.len() ==> #[trigger] tree(a[j]) == b[j],
    ensures
        forest(a) == b,
{
    lemma_forest(a);
    assert(forest(a) =~= b);
}

/// Appending a node appends its value.
pub proof fn lemma_forest_push(v: Seq<ArgsKV>, x: ArgsKV)
    ensures
        forest(v.push(x)) == forest(v).push(tree(x)),
{
    lemma_forest(v);
    lemma_forest(v.push(x));
    assert(forest(v.push(x)) =~= forest(v).push(tree(x)));
}

/// Appending nodes appends their values.
pub proof fn lemma_forest_append(a: Seq<ArgsKV>, b: Seq<ArgsKV>)
    ensures
        forest(a + b) == forest(a) + forest(b),
{
    lemma_forest(a);
    lemma_forest(b);
    lemma_forest(a + b);
    assert(forest(a + b) =~= forest(a) + forest(b));
}

// ---------------------------------------------------------------------------
// Decimal rendering
// ---------------------------------------------------------------------------

pub open spec fn digit_char(d: nat) -> char {
    if d == 0 { '0' }
    else if d == 1 { '1' }
    else if d == 2 { '2' }
    else if d == 3 { '3' }
    else if d == 4 { '4' }
    else if d == 5 { '5' }
    else if d == 6 { '6' }
    else if d == 7 { '7' }
    else if d == 8 { '8' }
    else { '9' }
}

/// The decimal text of `n`, without leading zeros.
pub open spec fn dec(n: nat) -> Seq<char>
    decreases n,
{
    if n < 10 {
        seq![digit_char(n)]
    } else {
        dec(n / 10) + seq![digit_char(n % 10)]
    }
}

fn digit_str(d: u64) -> (r: &'static str)
    requires
        d < 10,
    ensures
        r@ == seq![digit_char(d as nat)],
{
    proof {
        reveal_strlit("0");
        reveal_strlit("1");
        reveal_strlit("2");
        reveal_strlit("3");
        reveal_strlit("4");
        reveal_strlit("5");
        reveal_strlit("6");
        reveal_strlit("7");
        reveal_strlit("8");
        reveal_strlit("9");
    }
    let r = if d == 0 { "0" }
    else if d == 1 { "1" }
    else if d == 2 { "2" }
    else if d == 3 { "3" }
    else if d == 4 { "4" }
    else if d == 5 { "5" }
    else if d == 6 { "6" }
    else if d == 7 { "7" }
    else if d == 8 { "8" }
    else { "9" };
    assert(r@ =~= seq![digit_char(d as nat)]);
    r
}

/// Renders `n` in decimal.
pub fn dec_string(n: u64) -> (r: String)
    ensures
        r@ == dec(n as nat),
    decreases n,
{
    if n < 10 {
        String::from_str(digit_str(n))
    } else {
        let mut s = dec_string(n / 10);
        s.append(digit_str(n % 10));
        s
    }
}

// ---------------------------------------------------------------------------
// What serialization emits
// ---------------------------------------------------------------------------

/// The symbol minted for counter value `n`.
pub open spec fn kv_name(n: nat) -> Seq<char> {
    "__initargs_autogen_"@ + dec(n)
}

/// A reference to the symbol minted for counter value `n`.
pub open spec fn kv_ref(n: nat) -> Seq<char> {
    "&"@ + kv_name(n)
}

/// The record declared for a string leaf.
pub open spec fn leaf_decl(name: Seq<char>, key: Seq<char>, val: Seq<char>) -> Seq<char> {
    "static struct kv_entry "@ + name + " = { key: \""@ + key + "\", vtype: VTYPE_STR, val: { str: \""@
        + val + "\" } };\n"@
}

/// The reference list and the record declared for an array node.
pub open spec fn arr_decl(
    val_name: Seq<char>,
    arr_name: Seq<char>,
    key: Seq<char>,
    refs: Seq<char>,
    sz: nat,
) -> Seq<char> {
    "static struct kv_entry *"@ + arr_name + "[] = {"@ + refs + "};\nstatic struct kv_entry "@
        + val_name + " = { key: \""@ + key + "\", vtype: VTYPE_ARR, val: { arr: { sz: "@ + dec(sz)
        + ", kvs: "@ + arr_name + " } } };\n"@
}

/// The items of `s` separated by ", ".
pub open spec fn join(s: Seq<Seq<char>>) -> Seq<char>
    decreases s.len(),
{
    if s.len() == 0 {
        Seq::empty()
    } else if s.len() == 1 {
        s[0]
    } else {
        join(s.drop_last()) + ", "@ + s.last()
    }
}

/// How many symbols serializing `kv` mints.
pub open spec fn used(kv: ArgsKV) -> nat
    decreases kv, 0nat,
{
    match kv.val {
        ArgsValType::Str(_) => 1,
        ArgsValType::Arr(kvs) => 2 + used_kids(kvs@, kvs@.len()),
    }
}

/// How many symbols serializing the first `i` of `kids` mints.
pub open spec fn used_kids(kids: Seq<ArgsKV>, i: nat) -> nat
    decreases kids, i,
{
    if i == 0 || i > kids.len() {
        0
    } else {
        used_kids(kids, (i - 1) as nat) + used(kids[i - 1])
    }
}

/// The counter value at which the `i`-th of `kids` starts, when the first starts at `n`.
pub open spec fn kid_start(kids: Seq<ArgsKV>, i: nat, n: nat) -> nat {
    n + used_kids(kids, i)
}

/// The declarations emitted for `kv` when the counter starts at `n`.
pub open spec fn ser_text(kv: ArgsKV, n: nat) -> Seq<char>
    decreases kv, 0nat,
{
    match kv.val {
        ArgsValType::Str(s) => leaf_decl(kv_name(n), kv.key@, s@),
        ArgsValType::Arr(kvs) => kids_text(kvs@, kvs@.len(), n + 2) + arr_decl(
            kv_name(n),
            kv_name(n + 1),
            kv.key@,
            join(kids_refs(kvs@, kvs@.len(), n + 2)),
            kvs@.len(),
        ),
    }
}

/// The declarations emitted for the first `i` of `kids`, the counter starting at `n`.
pub open spec fn kids_text(kids: Seq<ArgsKV>, i: nat, n: nat) -> Seq<char>
    decreases kids, i,
{
    if i == 0 || i > kids.len() {
        Seq::empty()
    } else {
        kids_text(kids, (i - 1) as nat, n) + ser_text(kids[i - 1], kid_start(kids, (i - 1) as nat, n))
    }
}

/// The references to the first `i` of `kids`, in their order, the counter starting at `n`.
pub open spec fn kids_refs(kids: Seq<ArgsKV>, i: nat, n: nat) -> Seq<Seq<char>> {
    Seq::new(i, |j: int| kv_ref(kid_start(kids, j as nat, n)))
}

/// The whole generated source for the tree `kv`.
pub open spec fn serialized(kv: ArgsKV) -> Seq<char> {
    "#include <initargs.h>\n"@ + ser_text(kv, 0)
        + "\nstruct initargs __initargs_root = { type: ARGS_IMPL_KV, d: { kv_ent: &__initargs_autogen_0 } };"@
}

/// The counter values of the records that serializing `kv` from `n`
/// declares, in the order they are emitted.
pub open spec fn decls(kv: ArgsKV, n: nat) -> Seq<nat>
    decreases kv, 0nat,
{
    match kv.val {
        ArgsValType::Str(_) => seq![n],
        ArgsValType::Arr(kvs) => kids_decls(kvs@, kvs@.len(), n + 2) + seq![n + 1, n],
    }
}

/// The counter values declared for the first `i` of `kids`, in order.
pub open spec fn kids_decls(kids: Seq<ArgsKV>, i: nat, n: nat) -> Seq<nat>
    decreases kids, i,
{
    if i == 0 || i > kids.len() {
        Seq::empty()
    } else {
        kids_decls(kids, (i - 1) as nat, n) + decls(kids[i - 1], kid_start(kids, (i - 1) as nat, n))
    }
}

/// Every array below `kv` refers only to records declared before its own
/// reference list.
pub open spec fn refs_declared_before(kv: ArgsKV, n: nat) -> bool
    decreases kv, 0nat,
{
    match kv.val {
        ArgsValType::Str(_) => true,
        ArgsValType::Arr(kvs) => kids_refs_declared(kvs@, kvs@.len(), n + 2),
    }
}

/// The first `i` of `kids` are declared and ordered as `refs_declared_before` asks.
pub open spec fn kids_refs_declared(kids: Seq<ArgsKV>, i: nat, n: nat) -> bool
    decreases kids, i,
{
    if i == 0 || i > kids.len() {
        true
    } else {
        &&& kids_refs_declared(kids, (i - 1) as nat, n)
        &&& refs_declared_before(kids[i - 1], kid_start(kids, (i - 1) as nat, n))
        &&& forall|j: int|
            0 <= j < i ==> #[trigger] kids_decls(kids, i, n).contains(kid_start(kids, j as nat, n))
    }
}

proof fn lemma_used_pos(kv: ArgsKV)
    ensures
        used(kv) >= 1,
{
}

proof fn lemma_kid_start_mono(kids: Seq<ArgsKV>, i: nat, j: nat, n: nat)
    requires
        i < j <= kids.len(),
    ensures
        kid_start(kids, i, n) < kid_start(kids, j, n),
    decreases j - i,
{
    lemma_used_pos(kids[j - 1]);
    if i + 1 < j {
        lemma_kid_start_mono(kids, i, (j - 1) as nat, n);
    }
}

/// Serializing `kv` from `n` declares each of the counter values
/// `n .. n + used(kv)` exactly once, and every reference list points only at
/// records declared earlier.
pub proof fn lemma_declares_once(kv: ArgsKV, n: nat)
    ensures
        decls(kv, n).len() == used(kv),
        decls(kv, n).no_duplicates(),
        forall|m: nat| decls(kv, n).contains(m) <==> n <= m < n + used(kv),
        refs_declared_before(kv, n),
    decreases kv, 0nat,
{
    match kv.val {
        ArgsValType::Str(_) => {
            assert forall|m: nat| decls(kv, n).contains(m) <==> n <= m < n + used(kv) by {
                if m == n {
                    assert(decls(kv, n)[0] == m);
                }
            }
        },
        ArgsValType::Arr(kvs) => {
            let kids = kvs@;
            lemma_kids_declare_once(kids, kids.len(), n + 2);
            let d = decls(kv, n);
            let kd = kids_decls(kids, kids.len(), n + 2);
            assert(used(kv) == 2 + used_kids(kids, kids.len()));
            assert(d == kd + seq![n + 1, n]);
            assert forall|m: nat| d.contains(m) <==> n <= m < n + used(kv) by {
                if d.contains(m) {
                    let k = choose|k: int| 0 <= k < d.len() && d[k] == m;
                    if k < kd.len() {
                        assert(kd.contains(m));
                    }
                }
                if n <= m < n + used(kv) {
                    if m == n {
                        assert(d[d.len() - 1] == m);
                    } else if m == n + 1 {
                        assert(d[d.len() - 2] == m);
                    } else {
                        assert(kd.contains(m));
                        let k = choose|k: int| 0 <= k < kd.len() && kd[k] == m;
                        assert(d[k] == m);
                    }
                }
            }
            assert forall|a: int, b: int| 0 <= a < d.len() && 0 <= b < d.len() && a != b implies d[a]
                != d[b] by {
                if a < kd.len() && b < kd.len() {
                } else if a < kd.len() {
                    assert(kd.contains(d[a]));
                } else if b < kd.len() {
                    assert(kd.contains(d[b]));
                }
            }
        },
    }
}

proof fn lemma_kids_declare_once(kids: Seq<ArgsKV>, i: nat, n: nat)
    requires
        i <= kids.len(),
    ensures
        kids_decls(kids, i, n).len() == used_kids(kids, i),
        kids_decls(kids, i, n).no_duplicates(),
        forall|m: nat| kids_decls(kids, i, n).contains(m) <==> n <= m < n + used_kids(kids, i),
        kids_refs_declared(kids, i, n),
    decreases kids, i,
{
    if i > 0 {
        let p = (i - 1) as nat;
        lemma_kids_declare_once(kids, p, n);
        let st = kid_start(kids, p, n);
        lemma_declares_once(kids[i - 1], st);
        let a = kids_decls(kids, p, n);
        let b = decls(kids[i - 1], st);
        let d = kids_decls(kids, i, n);
        assert(d == a + b);
        assert forall|m: nat| d.contains(m) <==> n <= m < n + used_kids(kids, i) by {
            if d.contains(m) {
                let k = choose|k: int| 0 <= k < d.len() && d[k] == m;
                if k < a.len() {
                    assert(a.contains(m));
                } else {
                    assert(b[k - a.len()] == m);
                    assert(b.contains(m));
                }
            }
            if n <= m < n + used_kids(kids, i) {
                if m < st {
                    assert(a.contains(m));
                    let k = choose|k: int| 0 <= k < a.len() && a[k] == m;
                    assert(d[k] == m);
                } else {
                    assert(b.contains(m));
                    let k = choose|k: int| 0 <= k < b.len() && b[k] == m;
                    assert(d[a.len() + k] == m);
                }
            }
        }
        assert forall|x: int, y: int| 0 <= x < d.len() && 0 <= y < d.len() && x != y implies d[x]
            != d[y] by {
            if x < a.len() && y < a.len() {
            } else if x >= a.len() && y >= a.len() {
                assert(b[x - a.len()] != b[y - a.len()]);
            } else if x < a.len() {
                assert(a.contains(d[x]));
                assert(b.contains(d[y]));
            } else {
                assert(a.contains(d[y]));
                assert(b.contains(d[x]));
            }
        }
        assert forall|j: int| 0 <= j < i implies #[trigger] d.contains(kid_start(kids, j as nat, n)) by {
            let m = kid_start(kids, j as nat, n);
            if j < p {
                lemma_kid_start_mono(kids, j as nat, p, n);
            }
            assert(n <= m < n + used_kids(kids, i));
        }
    }
}

/// The reference list of an array names its children's records in the
/// children's order: the `j`-th reference is to the `j`-th child's record,
/// and the children's records are numbered in increasing order.
pub proof fn lemma_refs_in_child_order(kids: Seq<ArgsKV>, n: nat)
    ensures
        kids_refs(kids, kids.len(), n).len() == kids.len(),
        forall|j: int|
            0 <= j < kids.len() ==> #[trigger] kids_refs(kids, kids.len(), n)[j] == kv_ref(
                kid_start(kids, j as nat, n),
            ),
        forall|j: int, k: int|
            0 <= j < k < kids.len() ==> #[trigger] kid_start(kids, j as nat, n) < #[trigger] kid_start(
                kids,
                k as nat,
                n,
            ),
{
    assert forall|j: int, k: int| 0 <= j < k < kids.len() implies #[trigger] kid_start(kids, j as nat, n)
        < #[trigger] kid_start(kids, k as nat, n) by {
        lemma_kid_start_mono(kids, j as nat, k as nat, n);
    }
}

proof fn lemma_text_by_tree(a: ArgsKV, b: ArgsKV, n: nat)
    requires
        tree(a) == tree(b),
    ensures
        ser_text(a, n) == ser_text(b, n),
        used(a) == used(b),
    decreases a, 0nat,
{
    match (a.val, b.val) {
        (ArgsValType::Arr(ka), ArgsValType::Arr(kb)) => {
            lemma_trees(ka@, ka@.len());
            lemma_trees(kb@, kb@.len());
            assert(ka@.len() == kb@.len());
            assert forall|j: int| 0 <= j < ka@.len() implies #[trigger] tree(ka@[j]) == tree(kb@[j]) by {
                assert(trees(ka@, ka@.len())[j] == trees(kb@, kb@.len())[j]);
            }
            assert forall|j: nat| j <= ka@.len() implies #[trigger] used_kids(ka@, j) == used_kids(kb@, j)
                && kids_text(ka@, j, n + 2) == kids_text(kb@, j, n + 2) by {
                lemma_kids_text_by_tree(ka@, kb@, j, n + 2);
            }
            assert(used_kids(ka@, ka@.len()) == used_kids(kb@, kb@.len()));
            assert(kids_text(ka@, ka@.len(), n + 2) == kids_text(kb@, kb@.len(), n + 2));
            assert(kids_refs(ka@, ka@.len(), n + 2) =~= kids_refs(kb@, kb@.len(), n + 2)) by {
                assert forall|j: int| 0 <= j < ka@.len() implies #[trigger] kids_refs(ka@, ka@.len(), n + 2)[j]
                    == kids_refs(kb@, kb@.len(), n + 2)[j] by {
                    assert(used_kids(ka@, j as nat) == used_kids(kb@, j as nat));
                }
            }
            assert(a.key@ == b.key@);
        },
        _ => {},
    }
}

proof fn lemma_kids_text_by_tree(ka: Seq<ArgsKV>, kb: Seq<ArgsKV>, i: nat, n: nat)
    requires
        i <= ka.len(),
        ka.len() == kb.len(),
        forall|j: int| 0 <= j < ka.len() ==> #[trigger] tree(ka[j]) == tree(kb[j]),
    ensures
        kids_text(ka, i, n) == kids_text(kb, i, n),
        used_kids(ka, i) == used_kids(kb, i),
    decreases ka, i,
{
    if i > 0 {
        lemma_kids_text_by_tree(ka, kb, (i - 1) as nat, n);
        assert(tree(ka[i - 1]) == tree(kb[i - 1]));
        lemma_text_by_tree(ka[i - 1], kb[i - 1], kid_start(ka, (i - 1) as nat, n));
    }
}

/// The generated source depends on the value of the tree alone: two trees
/// with the same keys, strings and shape serialize to the same text.
pub proof fn lemma_same_tree_same_source(a: ArgsKV, b: ArgsKV)
    requires
        tree(a) == tree(b),
    ensures
        serialized(a) == serialized(b),
{
    lemma_text_by_tree(a, b, 0);
}

/// Wrapping argument lists of the same value under the root key gives the
/// same generated source.
pub proof fn lemma_same_args_same_source(a: ArgsKV, b: ArgsKV)
    requires
        a.key@ == b.key@,
        a.val is Arr,
        b.val is Arr,
        forest(a.val->Arr_0@) == forest(b.val->Arr_0@),
    ensures
        serialized(a) == serialized(b),
{
    lemma_text_by_tree(a, b, 0);
}

/// The reference list of an array.
pub open spec fn list_line(arr_name: Seq<char>, refs: Seq<char>) -> Seq<char> {
    "static struct kv_entry *"@ + arr_name + "[] = {"@ + refs + "};\n"@
}

/// The record of an array, pointing at its reference list.
pub open spec fn arr_record(val_name: Seq<char>, arr_name: Seq<char>, key: Seq<char>, sz: nat) -> Seq<char> {
    "static struct kv_entry "@ + val_name + " = { key: \""@ + key + "\", vtype: VTYPE_ARR, val: { arr: { sz: "@
        + dec(sz) + ", kvs: "@ + arr_name + " } } };\n"@
}

/// The declaration lines emitted for `kv` from `n`, one per symbol, in order.
pub open spec fn lines(kv: ArgsKV, n: nat) -> Seq<Seq<char>>
    decreases kv, 0nat,
{
    match kv.val {
        ArgsValType::Str(s) => seq![leaf_decl(kv_name(n), kv.key@, s@)],
        ArgsValType::Arr(kvs) => kids_lines(kvs@, kvs@.len(), n + 2) + seq![
            list_line(kv_name(n + 1), join(kids_refs(kvs@, kvs@.len(), n + 2))),
            arr_record(kv_name(n), kv_name(n + 1), kv.key@, kvs@.len()),
        ],
    }
}

/// The declaration lines emitted for the first `i` of `kids`.
pub open spec fn kids_lines(kids: Seq<ArgsKV>, i: nat, n: nat) -> Seq<Seq<char>>
    decreases kids, i,
{
    if i == 0 || i > kids.len() {
        Seq::empty()
    } else {
        kids_lines(kids, (i - 1) as nat, n) + lines(kids[i - 1], kid_start(kids, (i - 1) as nat, n))
    }
}

/// The lines `ls` one after another.
pub open spec fn concat_lines(ls: Seq<Seq<char>>) -> Seq<char>
    decreases ls.len(),
{
    if ls.len() == 0 {
        Seq::empty()
    } else {
        concat_lines(ls.drop_last()) + ls.last()
    }
}

/// Line `line` declares symbol `m`: a record or a reference list named after it.
pub open spec fn declares(line: Seq<char>, m: nat) -> bool {
    exists|rest: Seq<char>|
        line == "static struct kv_entry "@ + kv_name(m) + rest || line == "static struct kv_entry *"@
            + kv_name(m) + rest
}

proof fn lemma_concat_append(a: Seq<Seq<char>>, b: Seq<Seq<char>>)
    ensures
        concat_lines(a + b) == concat_lines(a) + concat_lines(b),
    decreases b.len(),
{
    if b.len() == 0 {
        assert(a + b =~= a);
        assert(concat_lines(a) + concat_lines(b) =~= concat_lines(a));
    } else {
        lemma_concat_append(a, b.drop_last());
        assert((a + b).drop_last() =~= a + b.drop_last());
        assert(concat_lines(a) + concat_lines(b) =~= concat_lines(a) + concat_lines(b.drop_last()) + b.last());
    }
}

/// The text emitted for `kv` is its declaration lines one after another; the
/// `k`-th line declares the `k`-th symbol of `decls`.
pub proof fn lemma_text_is_lines(kv: ArgsKV, n: nat)
    ensures
        concat_lines(lines(kv, n)) == ser_text(kv, n),
        lines(kv, n).len() == decls(kv, n).len(),
        forall|k: int| 0 <= k < lines(kv, n).len() ==> declares(#[trigger] lines(kv, n)[k], decls(kv, n)[k]),
    decreases kv, 0nat,
{
    match kv.val {
        ArgsValType::Str(s) => {
            let l = lines(kv, n);
            assert(concat_lines(l.drop_last()) == Seq::<char>::empty());
            assert(concat_lines(l) =~= ser_text(kv, n));
            let rest = " = { key: \""@ + kv.key@ + "\", vtype: VTYPE_STR, val: { str: \""@ + s@ + "\" } };\n"@;
            assert(l[0] =~= "static struct kv_entry "@ + kv_name(n) + rest);
        },
        ArgsValType::Arr(kvs) => {
            let kids = kvs@;
            lemma_kids_text_is_lines(kids, kids.len(), n + 2);
            let kl = kids_lines(kids, kids.len(), n + 2);
            let refs = join(kids_refs(kids, kids.len(), n + 2));
            let ll = list_line(kv_name(n + 1), refs);
            let ar = arr_record(kv_name(n), kv_name(n + 1), kv.key@, kids.len());
            let tail = seq![ll, ar];
            lemma_concat_append(kl, tail);
            assert(tail.drop_last() =~= seq![ll]);
            assert(seq![ll].drop_last() =~= Seq::<Seq<char>>::empty());
            assert(concat_lines(seq![ll]) == concat_lines(Seq::<Seq<char>>::empty()) + ll);
            assert(concat_lines(seq![ll]) =~= ll);
            assert(concat_lines(tail) == concat_lines(seq![ll]) + ar);
            assert(concat_lines(tail) =~= ll + ar);
            reveal_strlit("};\n");
            reveal_strlit("static struct kv_entry ");
            reveal_strlit("};\nstatic struct kv_entry ");
            assert("};\nstatic struct kv_entry "@ =~= "};\n"@ + "static struct kv_entry "@);
            assert(ll + ar =~= arr_decl(kv_name(n), kv_name(n + 1), kv.key@, refs, kids.len()));
            let l = lines(kv, n);
            let d = decls(kv, n);
            assert forall|k: int| 0 <= k < l.len() implies declares(#[trigger] l[k], d[k]) by {
                if k < kl.len() {
                    assert(l[k] == kl[k]);
                    assert(d[k] == kids_decls(kids, kids.len(), n + 2)[k]);
                } else if k == kl.len() {
                    let rest = "[] = {"@ + refs + "};\n"@;
                    assert(l[k] =~= "static struct kv_entry *"@ + kv_name(n + 1) + rest);
                } else {
                    let rest = " = { key: \""@ + kv.key@ + "\", vtype: VTYPE_ARR, val: { arr: { sz: "@
                        + dec(kids.len()) + ", kvs: "@ + kv_name(n + 1) + " } } };\n"@;
                    assert(l[k] =~= "static struct kv_entry "@ + kv_name(n) + rest);
                }
            }
        },
    }
}

proof fn lemma_kids_text_is_lines(kids: Seq<ArgsKV>, i: nat, n: nat)
    requires
        i <= kids.len(),
    ensures
        concat_lines(kids_lines(kids, i, n)) == kids_text(kids, i, n),
        kids_lines(kids, i, n).len() == kids_decls(kids, i, n).len(),
        forall|k: int|
            0 <= k < kids_lines(kids, i, n).len() ==> declares(
                #[trigger] kids_lines(kids, i, n)[k],
                kids_decls(kids, i, n)[k],
            ),
    decreases kids, i,
{
    if i > 0 {
        let p = (i - 1) as nat;
        lemma_kids_text_is_lines(kids, p, n);
        let st = kid_start(kids, p, n);
        lemma_text_is_lines(kids[i - 1], st);
        let a = kids_lines(kids, p, n);
        let b = lines(kids[i - 1], st);
        lemma_concat_append(a, b);
        let l = kids_lines(kids, i, n);
        let d = kids_decls(kids, i, n);
        let da = kids_decls(kids, p, n);
        let db = decls(kids[i - 1], st);
        assert(l == a + b);
        assert(d == da + db);
        assert forall|k: int| 0 <= k < l.len() implies declares(#[trigger] l[k], d[k]) by {
            if k < a.len() {
                assert(l[k] == a[k]);
                assert(d[k] == da[k]);
            } else {
                assert(l[k] == b[k - a.len()]);
                assert(d[k] == db[k - a.len()]);
            }
        }
    }
}

/// The source generated for `kv` is its declaration lines between the
/// header and the root record. Line `k` declares symbol `decls(kv, 0)[k]`;
/// these are the symbols `0 .. used(kv)`, each declared once; every reference
/// list names only symbols declared on earlier lines; and the root record
/// refers to symbol 0, which is declared above it.
pub proof fn lemma_serialized_declares_once(kv: ArgsKV)
    ensures
        serialized(kv) == "#include <initargs.h>\n"@ + concat_lines(lines(kv, 0))
            + "\nstruct initargs __initargs_root = { type: ARGS_IMPL_KV, d: { kv_ent: &__initargs_autogen_0 } };"@,
        lines(kv, 0).len() == used(kv),
        forall|k: int| 0 <= k < lines(kv, 0).len() ==> declares(#[trigger] lines(kv, 0)[k], decls(kv, 0)[k]),
        decls(kv, 0).no_duplicates(),
        forall|m: nat| decls(kv, 0).contains(m) <==> m < used(kv),
        refs_declared_before(kv, 0),
        decls(kv, 0).contains(0),
{
    lemma_text_is_lines(kv, 0);
    lemma_declares_once(kv, 0);
    lemma_used_pos(kv);
}

// ---------------------------------------------------------------------------
// Symbol namespace
// ---------------------------------------------------------------------------

/// A counter that mints unique symbol names within one serialization.
pub struct VarNamespace {
    pub id: usize,
}

impl VarNamespace {
    pub fn new() -> (r: VarNamespace)
        ensures
            r.id == 0,
    {
        VarNamespace { id: 0 }
    }

    pub fn fresh_name(&mut self) -> (r: String)
        requires
            old(self).id < usize::MAX,
        ensures
            r@ == kv_name(old(self).id as nat),
            final(self).id == old(self).id + 1,
    {
        let id = self.id;
        self.id = self.id + 1;
        let mut s = String::from_str("__initargs_autogen_");
        let d = dec_string(id as u64);
        s.append(d.as_str());
        s
    }
}

impl ArgsKV {
    pub fn new_key(key: String, val: String) -> (r: ArgsKV)
        ensures
            r == (ArgsKV { key, val: ArgsValType::Str(val) }),
    {
        ArgsKV { key, val: ArgsValType::Str(val) }
    }

    pub fn new_arr(key: String, val: Vec<ArgsKV>) -> (r: ArgsKV)
        ensures
            r == (ArgsKV { key, val: ArgsValType::Arr(val) }),
    {
        ArgsKV { key, val: ArgsValType::Arr(val) }
    }

    pub fn new_top(val: Vec<ArgsKV>) -> (r: ArgsKV)
        ensures
            r.key@ == "_"@,
            r.val == ArgsValType::Arr(val),
    {
        ArgsKV { key: String::from_str("_"), val: ArgsValType::Arr(val) }
    }

    /// Emits the declarations for this node and everything below it, minting
    /// names from `ns`; returns them with a reference to this node's record.
    #[verifier::spinoff_prover]
    #[verifier::rlimit(50)]
    fn serialize_rec(&self, ns: &mut VarNamespace) -> (r: (String, String))
        requires
            old(ns).id + used(*self) <= usize::MAX,
        ensures
            r.0@ == ser_text(*self, old(ns).id as nat),
            r.1@ == kv_ref(old(ns).id as nat),
            final(ns).id == old(ns).id + used(*self),
        decreases self,
    {
        let ghost n = ns.id as nat;
        match &self.val {
            ArgsValType::Str(s) => {
                let kv_name = ns.fresh_name();
                let mut t = String::from_str("static struct kv_entry ");
                t.append(kv_name.as_str());
                t.append(" = { key: \"");
                t.append(self.key.as_str());
                t.append("\", vtype: VTYPE_STR, val: { str: \"");
                t.append(s.as_str());
                t.append("\" } };\n");
                let mut r = String::from_str("&");
                r.append(kv_name.as_str());
                assert(t@ =~= leaf_decl(kv_name@, self.key@, s@));
                (t, r)
            },
            ArgsValType::Arr(kvs) => {
                let arr_val_name = ns.fresh_name();
                let arr_name = ns.fresh_name();
                let mut defs = String::new();
                let mut refs = String::new();
                let ghost kids = kvs@;
                let mut i: usize = 0;
                while i < kvs.len()
                    invariant
                        kids == kvs@,
                        *self == (ArgsKV { key: self.key, val: ArgsValType::Arr(*kvs) }),
                        used(*self) == 2 + used_kids(kids, kids.len()),
                        n + used(*self) <= usize::MAX,
                        0 <= i <= kids.len(),
                        ns.id == kid_start(kids, i as nat, n + 2),
                        defs@ == kids_text(kids, i as nat, n + 2),
                        refs@ == join(kids_refs(kids, i as nat, n + 2)),
                    decreases kids.len() - i,
                {
                    proof {
                        lemma_used_kids_mono(kids, (i + 1) as nat, kids.len());
                    }
                    let (t1, r1) = kvs[i].serialize_rec(ns);
                    defs.append(t1.as_str());
                    if i > 0 {
                        refs.append(", ");
                    }
                    refs.append(r1.as_str());
                    proof {
                        let k1 = kids_refs(kids, (i + 1) as nat, n + 2);
                        assert(k1.drop_last() =~= kids_refs(kids, i as nat, n + 2));
                        if i == 0 {
                            assert(refs@ =~= join(k1));
                        }
                    }
                    i = i + 1;
                }
                let sz = dec_string(kvs.len() as u64);
                let mut t = defs;
                t.append("static struct kv_entry *");
                t.append(arr_name.as_str());
                t.append("[] = {");
                t.append(refs.as_str());
                t.append("};\nstatic struct kv_entry ");
                t.append(arr_val_name.as_str());
                t.append(" = { key: \"");
                t.append(self.key.as_str());
                t.append("\", vtype: VTYPE_ARR, val: { arr: { sz: ");
                t.append(sz.as_str());
                t.append(", kvs: ");
                t.append(arr_name.as_str());
                t.append(" } } };\n");
                let mut r = String::from_str("&");
                r.append(arr_val_name.as_str());
                assert(t@ =~= kids_text(kids, kids.len(), n + 2) + arr_decl(
                    kv_name(n),
                    kv_name(n + 1),
                    self.key@,
                    join(kids_refs(kids, kids.len(), n + 2)),
                    kids.len(),
                ));
                (t, r)
            },
        }
    }

    /// Generates the source that declares this tree as the root of a
    /// component's initial arguments.
    pub fn serialize(&self) -> (r: String)
        requires
            used(*self) <= usize::MAX,
        ensures
            r@ == serialized(*self),
    {
        let mut ns = VarNamespace::new();
        let mut r = String::from_str("#include <initargs.h>\n");
        let (t, _) = self.serialize_rec(&mut ns);
        r.append(t.as_str());
        r.append(
            "\nstruct initargs __initargs_root = { type: ARGS_IMPL_KV, d: { kv_ent: &__initargs_autogen_0 } };",
        );
        r
    }
}

proof fn lemma_used_kids_mono(kids: Seq<ArgsKV>, i: nat, j: nat)
    requires
        i <= j <= kids.len(),
    ensures
        used_kids(kids, i) <= used_kids(kids, j),
    decreases j - i,
{
    if i < j {
        lemma_used_kids_mono(kids, i, (j - 1) as nat);
    }
}

impl ArgsKV {
    /// Counts the symbols that serializing this tree mints; `None` when the
    /// count exceeds the counter's range.
    pub fn symbol_count(&self) -> (r: Option<usize>)
        ensures
            r is Some <==> used(*self) <= usize::MAX,
            r is Some ==> r->Some_0 == used(*self),
        decreases self,
    {
        match &self.val {
            ArgsValType::Str(_) => Some(1),
            ArgsValType::Arr(kvs) => {
                let ghost kids = kvs@;
                let mut total: usize = 2;
                let mut i: usize = 0;
                while i < kvs.len()
                    invariant
                        kids == kvs@,
                        *self == (ArgsKV { key: self.key, val: ArgsValType::Arr(*kvs) }),
                        used(*self) == 2 + used_kids(kids, kids.len()),
                        0 <= i <= kids.len(),
                        total == 2 + used_kids(kids, i as nat),
                    decreases kids.len() - i,
                {
                    proof {
                        lemma_used_kids_mono(kids, (i + 1) as nat, kids.len());
                    }
                    proof {
                        vstd::std_specs::vec::axiom_vec_index_decreases(*kvs, i as int);
                    }
                    match kvs[i].symbol_count() {
                        Some(c) => {
                            if total > usize::MAX - c {
                                return None;
                            }
                            total = total + c;
                        },
                        None => {
                            return None;
                        },
                    }
                    i = i + 1;
                }
                Some(total)
            },
        }
    }
}

/// The arguments handed to a component: its declared parameters, its
/// configuration, then its id.
pub open spec fn merged(params: Seq<ArgsKV>, res: Seq<ArgsKV>, id: ComponentId) -> Seq<KvTree> {
    seq![KvTree::Node("param"@, forest(params))] + forest(res) + seq![
        KvTree::Leaf("compid"@, dec(id as nat)),
    ]
}

/// Combines a component's declared parameters, its configuration and its id.
pub fn merge_params(params: Vec<ArgsKV>, resargs: Vec<ArgsKV>, id: ComponentId) -> (r: Vec<ArgsKV>)
    ensures
        forest(r@) == merged(params@, resargs@, id),
        r@.len() == resargs@.len() + 2,
        r@[0].val == ArgsValType::Arr(params),
        r@.subrange(1, r@.len() - 1) == resargs@,
        r@.last().val is Str,
{
    let ghost p = params@;
    let ghost ra = resargs@;
    let mut args: Vec<ArgsKV> = Vec::new();
    let k1 = ArgsKV::new_arr(String::from_str("param"), params);
    proof {
        lemma_forest_push(args@, k1);
    }
    args.push(k1);
    let mut rest = resargs;
    proof {
        lemma_forest_append(args@, rest@);
    }
    args.append(&mut rest);
    let k2 = ArgsKV::new_key(String::from_str("compid"), dec_string(id as u64));
    proof {
        lemma_forest_push(args@, k2);
    }
    args.push(k2);
    assert(forest(args@) =~= merged(p, ra, id));
    assert(args@.subrange(1, args@.len() - 1) =~= ra);
    args
}

/// The initial arguments of one component, and where their generated source goes.
pub struct Parameters {
    pub param_file_path: String,
    pub tar_file_path: Option<String>,
    pub args: Vec<ArgsKV>,
}

/// How many symbols the arguments of a component mint, merged and wrapped in a root node.
pub open spec fn merged_symbols(params: Seq<ArgsKV>, res: Seq<ArgsKV>) -> nat {
    5 + used_kids(params, params.len()) + used_kids(res, res.len())
}

proof fn lemma_used_kids_prefix(a: Seq<ArgsKV>, b: Seq<ArgsKV>, i: nat)
    requires
        i <= a.len(),
    ensures
        used_kids(a + b, i) == used_kids(a, i),
    decreases i,
{
    if i > 0 {
        lemma_used_kids_prefix(a, b, (i - 1) as nat);
        assert((a + b)[i - 1] == a[i - 1]);
    }
}

proof fn lemma_used_kids_append(a: Seq<ArgsKV>, b: Seq<ArgsKV>, j: nat)
    requires
        j <= b.len(),
    ensures
        used_kids(a + b, a.len() + j) == used_kids(a, a.len()) + used_kids(b, j),
    decreases j,
{
    if j == 0 {
        lemma_used_kids_prefix(a, b, a.len());
    } else {
        lemma_used_kids_append(a, b, (j - 1) as nat);
        assert((a + b)[a.len() + j - 1] == b[j - 1]);
    }
}

impl Parameters {
    /// Merges a component's arguments and generates the source that declares
    /// them; `None` when they mint more symbols than the counter can number.
    pub fn transition_iter(
        param_file_path: String,
        params: Vec<ArgsKV>,
        resargs: Vec<ArgsKV>,
        id: ComponentId,
    ) -> (r: Option<(Parameters, String)>)
        ensures
            r is Some <==> merged_symbols(params@, resargs@) <= usize::MAX,
            r is Some ==> r->Some_0.0.param_file_path == param_file_path,
            r is Some ==> r->Some_0.0.tar_file_path is None,
            r is Some ==> forest(r->Some_0.0.args@) == merged(params@, resargs@, id),
            r is Some ==> exists|top: ArgsKV|
                top.key@ == "_"@ && top.val == ArgsValType::Arr(r->Some_0.0.args) && r->Some_0.1@
                    == serialized(top),
    {
        let ghost p = params@;
        let ghost ra = resargs@;
        let args = merge_params(params, resargs, id);
        let top = ArgsKV::new_top(args);
        proof {
            let a = args@;
            let head = seq![a[0]];
            assert(a =~= (head + ra) + seq![a.last()]);
            lemma_used_kids_append(head + ra, seq![a.last()], 1);
            lemma_used_kids_append(head, ra, ra.len());
            assert(used_kids(head, 0) == 0);
            assert(used_kids(head, 1) == used(a[0]));
            assert(used_kids(seq![a.last()], 0) == 0);
            assert(used_kids(seq![a.last()], 1) == used(a.last()));
            assert(used(top) == 2 + used_kids(a, a.len()));
            assert(used(top) == merged_symbols(p, ra));
        }
        match top.symbol_count() {
            None => None,
            Some(_) => {
                let text = top.serialize();
                let args = match top.val {
                    ArgsValType::Arr(v) => v,
                    ArgsValType::Str(_) => Vec::new(),
                };
                Some((Parameters { param_file_path, tar_file_path: None, args }, text))
            },
        }
    }

    pub fn param_prog(&self) -> (r: &String)
        ensures
            r == &self.param_file_path,
    {
        &self.param_file_path
    }

    pub fn param_list(&self) -> (r: &Vec<ArgsKV>)
        ensures
            r == &self.args,
    {
        &self.args
    }

    pub fn param_fs(&self) -> (r: &Option<String>)
        ensures
            r == &self.tar_file_path,
    {
        &self.tar_file_path
    }
}

} // verus!
