//! The stack usage report of the kernel: every function of the binary, largest stack first,
//! with its names, address, size and stack usage.

use vstd::prelude::*;
use vstd::string::*;
use crate::text::{hex, push_hex};

verus! {

/// A function of a binary as the stack analysis finds it.
pub struct StackFunction {
    /// The address of the function
    pub address: u64,
    /// Its names (mangled): the function and its aliases
    pub names: Vec<String>,
    /// Its size in bytes
    pub size: u64,
    /// Its stack usage in bytes, where it is known
    pub stack: Option<u64>,
}

/// A function of the analysis, as plain values.
pub struct StackFunctionView {
    pub address: u64,
    pub names: Seq<Seq<char>>,
    pub size: u64,
    pub stack: Option<u64>,
}

impl DeepView for StackFunction {
    type V = StackFunctionView;

    open spec fn deep_view(&self) -> StackFunctionView {
        StackFunctionView {
            address: self.address,
            names: self.names.deep_view(),
            size: self.size,
            stack: self.stack,
        }
    }
}

impl StackFunction {
    /// A function with the given address, names, size and stack usage.
    pub fn new(address: u64, names: &[&str], size: u64, stack: Option<u64>) -> (r: Self)
        ensures
            r.address == address,
            r.size == size,
            r.stack == stack,
            r.names.deep_view() == Seq::new(names@.len(), |i: int| names@[i]@),
    {
        let mut v: Vec<String> = Vec::new();
        let mut i: usize = 0;
        while i < names.len()
            invariant
                i <= names@.len(),
                v@.len() == i,
                v.deep_view() == Seq::new(i as nat, |j: int| names@[j]@),
            decreases names@.len() - i,
        {
            let s = names[i].to_string();
            let ghost prev = v@;
            let ghost pd = v.deep_view();
            v.push(s);
            assert(v@ == prev.push(s));
            assert forall|j: int| 0 <= j < i + 1 implies #[trigger] v.deep_view()[j] == names@[j]@ by {
                if j < i {
                    assert(v@[j] == prev[j]);
                    assert(pd[j] == prev[j].deep_view());
                }
            }
            assert(v.deep_view() =~= Seq::new(i as nat + 1, |j: int| names@[j]@));
            i = i + 1;
        }
        Self { address, names: v, size, stack }
    }
}

/// A character that may follow `.llvm.` in the suffix that link time optimization adds to a
/// symbol name: an upper case hexadecimal digit or `@`.
pub open spec fn llvm_hash_char(c: char) -> bool {
    ('A' <= c && c <= 'F') || ('0' <= c && c <= '9') || c == '@'
}

/// The marker `.llvm.` stands at position `i` of the name.
pub open spec fn llvm_marker_at(s: Seq<char>, i: int) -> bool {
    &&& 0 <= i
    &&& i + 6 <= s.len()
    &&& s[i] == '.'
    &&& s[i + 1] == 'l'
    &&& s[i + 2] == 'l'
    &&& s[i + 3] == 'v'
    &&& s[i + 4] == 'm'
    &&& s[i + 5] == '.'
}

/// The first position below `k` where the marker `.llvm.` stands.
pub open spec fn first_llvm_marker_below(s: Seq<char>, k: int) -> Option<int>
    decreases k,
{
    if k <= 0 {
        None
    } else {
        match first_llvm_marker_below(s, k - 1) {
            Some(p) => Some(p),
            None => if llvm_marker_at(s, k - 1) {
                Some(k - 1)
            } else {
                None
            },
        }
    }
}

/// The name under which a symbol was mangled: the name cut before its first `.llvm.` when
/// everything after that marker is an upper case hexadecimal digit or `@`, else the whole
/// name.
pub open spec fn demangle_original_text(name: Seq<char>) -> Seq<char> {
    match first_llvm_marker_below(name, name.len() as int) {
        Some(i) => if forall|j: int| i + 6 <= j < name.len() ==> llvm_hash_char(#[trigger] name[j]) {
            name.take(i)
        } else {
            name
        },
        None => name,
    }
}

/// Whether the marker `.llvm.` stands at position `i`.
fn llvm_marker(name: &str, n: usize, i: usize) -> (r: bool)
    requires
        n == name@.len(),
    ensures
        r == llvm_marker_at(name@, i as int),
{
    i < n && n - i >= 6 && name.get_char(i) == '.' && name.get_char(i + 1) == 'l'
        && name.get_char(i + 2) == 'l' && name.get_char(i + 3) == 'v' && name.get_char(i + 4)
        == 'm' && name.get_char(i + 5) == '.'
}

/// The first position of the marker `.llvm.` in the name.
fn find_llvm_marker(name: &str, n: usize) -> (r: Option<usize>)
    requires
        n == name@.len(),
    ensures
        r matches Some(p) ==> first_llvm_marker_below(name@, n as int) == Some(p as int) && p + 6
            <= n,
        r is None ==> first_llvm_marker_below(name@, n as int) is None,
{
    let mut i: usize = 0;
    while i < n
        invariant
            n == name@.len(),
            i <= n,
            first_llvm_marker_below(name@, i as int) is None,
        decreases n - i,
    {
        if llvm_marker(name, n, i) {
            proof {
                assert(first_llvm_marker_below(name@, i + 1) == Some(i as int));
                lemma_first_llvm_marker_grows(name@, i + 1, n as int);
            }
            return Some(i);
        }
        i = i + 1;
    }
    None
}

/// A first marker found below `k` stays the first below any larger bound.
proof fn lemma_first_llvm_marker_grows(s: Seq<char>, k: int, m: int)
    requires
        k <= m,
        first_llvm_marker_below(s, k) is Some,
    ensures
        first_llvm_marker_below(s, m) == first_llvm_marker_below(s, k),
    decreases m - k,
{
    if k < m {
        lemma_first_llvm_marker_grows(s, k, m - 1);
    }
}

/// The original form of a mangled symbol name, as `rustc_demangle::demangle(name).as_str()`
/// gives it: the name without the suffix that link time optimization adds.
fn demangle_original(name: &str) -> (r: String)
    ensures
        r@ == demangle_original_text(name@),
{
    let n = name.unicode_len();
    let mut out = String::new();
    match find_llvm_marker(name, n) {
        Some(i) => {
            let mut j: usize = i + 6;
            let mut all_hash = true;
            while j < n
                invariant
                    n == name@.len(),
                    i + 6 <= j <= n,
                    all_hash == forall|q: int| i + 6 <= q < j ==> llvm_hash_char(#[trigger] name@[q]),
                decreases n - j,
            {
                let c = name.get_char(j);
                if !(('A' <= c && c <= 'F') || ('0' <= c && c <= '9') || c == '@') {
                    all_hash = false;
                }
                j = j + 1;
            }
            if all_hash {
                out.append(name.substring_char(0, i));
                assert(out@ =~= name@.take(i as int));
                assert(first_llvm_marker_below(name@, name@.len() as int) == Some(i as int));
                assert(demangle_original_text(name@) == name@.take(i as int));
            } else {
                out.append(name);
                assert(out@ =~= name@);
                assert(demangle_original_text(name@) == name@);
            }
        },
        None => {
            out.append(name);
            assert(out@ =~= name@);
        },
    }
    out
}

/// Stack usages in order: an unknown usage before any known one.
pub open spec fn stack_le(a: Option<u64>, b: Option<u64>) -> bool {
    match (a, b) {
        (None, _) => true,
        (Some(_), None) => false,
        (Some(x), Some(y)) => x <= y,
    }
}

/// The first place in `order` whose function uses more stack than `k`.
pub open spec fn first_greater(order: Seq<int>, keys: Seq<Option<u64>>, k: Option<u64>) -> int
    decreases order.len(),
{
    if order.len() == 0 {
        0
    } else if !stack_le(keys[order[0]], k) {
        0
    } else {
        1 + first_greater(order.drop_first(), keys, k)
    }
}

/// The indices of the functions sorted by stack usage, stably: each function goes after all
/// the earlier ones that use no more stack than it, and before those that use more.
pub open spec fn stack_order(keys: Seq<Option<u64>>, n: int) -> Seq<int>
    decreases n,
{
    if n <= 0 {
        Seq::empty()
    } else {
        let prev = stack_order(keys, n - 1);
        prev.insert(first_greater(prev, keys, keys[n - 1]), n - 1)
    }
}

/// The stack usage of each function.
pub open spec fn stack_keys(fs: Seq<StackFunctionView>) -> Seq<Option<u64>> {
    Seq::new(fs.len(), |i: int| fs[i].stack)
}

/// The lines of the report for one name of a function.
pub open spec fn name_lines(f: StackFunctionView, name: Seq<char>) -> Seq<char> {
    "Function "@ + demangle_original_text(name) + " @"@ + hex(f.address as nat) + "\n"@ + match f.stack {
        Some(s) => "\t size: 0x"@ + hex(f.size as nat) + ", stack: 0x"@ + hex(s as nat) + "\n"@,
        None => "\t size: 0x"@ + hex(f.size as nat) + ", stack: None\n"@,
    }
}

/// The lines of the report for the first `k` names of a function.
pub open spec fn function_lines(f: StackFunctionView, k: int) -> Seq<char>
    decreases k,
{
    if k <= 0 {
        Seq::empty()
    } else {
        function_lines(f, k - 1) + name_lines(f, f.names[k - 1])
    }
}

/// The report for the functions at these indices, taken from the last to the first.
pub open spec fn report_text(fs: Seq<StackFunctionView>, order: Seq<int>) -> Seq<char>
    decreases order.len(),
{
    if order.len() == 0 {
        Seq::empty()
    } else {
        function_lines(fs[order.last()], fs[order.last()].names.len() as int) + report_text(
            fs,
            order.drop_last(),
        )
    }
}

/// The first place is where the scan stops: every place before it holds a function that uses
/// no more stack, and the place itself, if any, one that uses more.
proof fn lemma_first_greater_at(order: Seq<int>, keys: Seq<Option<u64>>, k: Option<u64>, p: int)
    requires
        0 <= p <= order.len(),
        forall|q: int| 0 <= q < p ==> stack_le(keys[#[trigger] order[q]], k),
        p < order.len() ==> !stack_le(keys[order[p]], k),
    ensures
        first_greater(order, keys, k) == p,
    decreases order.len(),
{
    if order.len() > 0 && p > 0 {
        assert forall|q: int| 0 <= q < p - 1 implies stack_le(
            keys[#[trigger] order.drop_first()[q]],
            k,
        ) by {
            assert(order.drop_first()[q] == order[q + 1]);
        }
        if p - 1 < order.drop_first().len() {
            assert(order.drop_first()[p - 1] == order[p]);
        }
        lemma_first_greater_at(order.drop_first(), keys, k, p - 1);
        assert(stack_le(keys[order[0]], k));
    }
}

/// The first place holds a function that uses more stack than `k`, if it is a place, and
/// every place before it one that uses no more.
proof fn lemma_first_greater_spec(order: Seq<int>, keys: Seq<Option<u64>>, k: Option<u64>)
    ensures
        0 <= first_greater(order, keys, k) <= order.len(),
        forall|q: int|
            0 <= q < first_greater(order, keys, k) ==> stack_le(keys[#[trigger] order[q]], k),
        first_greater(order, keys, k) < order.len() ==> !stack_le(
            keys[order[first_greater(order, keys, k)]],
            k,
        ),
    decreases order.len(),
{
    if order.len() > 0 && stack_le(keys[order[0]], k) {
        let rest = order.drop_first();
        lemma_first_greater_spec(rest, keys, k);
        assert forall|q: int| 0 <= q < first_greater(order, keys, k) implies stack_le(
            keys[#[trigger] order[q]],
            k,
        ) by {
            if q > 0 {
                assert(order[q] == rest[q - 1]);
            }
        }
        if first_greater(order, keys, k) < order.len() {
            assert(order[first_greater(order, keys, k)] == rest[first_greater(rest, keys, k)]);
        }
    }
}

/// The order of stack usages is total and transitive.
proof fn lemma_stack_le_facts(a: Option<u64>, b: Option<u64>, c: Option<u64>)
    ensures
        stack_le(a, b) || stack_le(b, a),
        stack_le(a, b) && stack_le(b, c) ==> stack_le(a, c),
        stack_le(a, a),
{
}

/// The functions in report order: every function once, sorted by stack usage, and functions
/// using the same stack in their order in the table.
pub open spec fn stably_sorted(order: Seq<int>, keys: Seq<Option<u64>>, n: int) -> bool {
    &&& order.len() == n
    &&& forall|q: int| 0 <= q < n ==> 0 <= #[trigger] order[q] < n
    &&& forall|q1: int, q2: int| 0 <= q1 < q2 < n ==> #[trigger] order[q1] != #[trigger] order[q2]
    &&& forall|q1: int, q2: int|
        0 <= q1 < q2 < n ==> stack_le(keys[#[trigger] order[q1]], keys[#[trigger] order[q2]])
    &&& forall|q1: int, q2: int|
        0 <= q1 < q2 < n && keys[#[trigger] order[q1]] == keys[#[trigger] order[q2]] ==> order[q1]
            < order[q2]
}

/// The report order lists every function exactly once, sorted by stack usage, keeping the
/// order of the table among functions that use the same stack.
pub proof fn lemma_stack_order_sorted(keys: Seq<Option<u64>>, n: int)
    requires
        0 <= n <= keys.len(),
    ensures
        stably_sorted(stack_order(keys, n), keys, n),
    decreases n,
{
    if n > 0 {
        lemma_stack_order_sorted(keys, n - 1);
        let prev = stack_order(keys, n - 1);
        let k = keys[n - 1];
        lemma_first_greater_spec(prev, keys, k);
        let p = first_greater(prev, keys, k);
        let cur = prev.insert(p, n - 1);
        assert(cur == stack_order(keys, n));
        assert forall|q: int| p < q < n implies !stack_le(keys[#[trigger] cur[q]], k) by {
            assert(cur[q] == prev[q - 1]);
            lemma_stack_le_facts(keys[prev[p]], keys[prev[q - 1]], k);
            lemma_stack_le_facts(keys[prev[p]], k, keys[prev[q - 1]]);
        }
        assert forall|q: int| 0 <= q < p implies stack_le(keys[#[trigger] cur[q]], k) by {
            assert(cur[q] == prev[q]);
        }
        assert forall|q: int| 0 <= q < n implies 0 <= #[trigger] cur[q] < n by {
            if q < p {
                assert(cur[q] == prev[q]);
            } else if q > p {
                assert(cur[q] == prev[q - 1]);
            }
        }
        assert forall|q1: int, q2: int| 0 <= q1 < q2 < n implies #[trigger] cur[q1] != #[trigger] cur[q2]
            && stack_le(keys[cur[q1]], keys[cur[q2]]) && (keys[cur[q1]] == keys[cur[q2]] ==> cur[q1]
            < cur[q2]) by {
            if q2 < p {
                assert(cur[q1] == prev[q1] && cur[q2] == prev[q2]);
            } else if q2 == p {
                assert(cur[q1] == prev[q1]);
                assert(stack_le(keys[cur[q1]], k));
            } else if q1 < p {
                assert(cur[q1] == prev[q1] && cur[q2] == prev[q2 - 1]);
                assert(stack_le(keys[cur[q1]], k));
                assert(!stack_le(keys[cur[q2]], k));
                lemma_stack_le_facts(keys[cur[q2]], k, keys[cur[q1]]);
                lemma_stack_le_facts(keys[cur[q1]], k, keys[cur[q2]]);
            } else if q1 == p {
                assert(cur[q2] == prev[q2 - 1]);
                assert(!stack_le(keys[cur[q2]], k));
                lemma_stack_le_facts(k, keys[cur[q2]], k);
            } else {
                assert(cur[q1] == prev[q1 - 1] && cur[q2] == prev[q2 - 1]);
            }
        }
    }
}

/// The indices are in range of the functions.
proof fn lemma_stack_order_range(keys: Seq<Option<u64>>, n: int)
    requires
        0 <= n,
    ensures
        stack_order(keys, n).len() == n,
        forall|q: int| 0 <= q < n ==> 0 <= #[trigger] stack_order(keys, n)[q] < n,
    decreases n,
{
    if n > 0 {
        lemma_stack_order_range(keys, n - 1);
        let prev = stack_order(keys, n - 1);
        lemma_first_greater_range(prev, keys, keys[n - 1]);
        let p = first_greater(prev, keys, keys[n - 1]);
        assert forall|q: int| 0 <= q < n implies 0 <= #[trigger] stack_order(keys, n)[q] < n by {
            if q < p {
                assert(stack_order(keys, n)[q] == prev[q]);
            } else if q > p {
                assert(stack_order(keys, n)[q] == prev[q - 1]);
            }
        }
    }
}

/// The first place is a place of the order, or its end.
proof fn lemma_first_greater_range(order: Seq<int>, keys: Seq<Option<u64>>, k: Option<u64>)
    ensures
        0 <= first_greater(order, keys, k) <= order.len(),
    decreases order.len(),
{
    if order.len() > 0 {
        lemma_first_greater_range(order.drop_first(), keys, k);
    }
}

/// The indices of the functions, sorted stably by stack usage.
fn sort_by_stack(fs: &Vec<StackFunction>) -> (r: Vec<usize>)
    ensures
        r@.len() == fs@.len(),
        forall|q: int| 0 <= q < r@.len() ==> r@[q] == stack_order(stack_keys(fs.deep_view()), fs@.len() as int)[q],
{
    let ghost keys = stack_keys(fs.deep_view());
    let mut order: Vec<usize> = Vec::new();
    let mut i: usize = 0;
    while i < fs.len()
        invariant
            keys == stack_keys(fs.deep_view()),
            i <= fs@.len(),
            order@.len() == i,
            forall|q: int| 0 <= q < i ==> order@[q] == #[trigger] stack_order(keys, i as int)[q],
        decreases fs@.len() - i,
    {
        proof {
            lemma_stack_order_range(keys, i as int);
        }
        let ghost prev = stack_order(keys, i as int);
        assert(order@.map_values(|x: usize| x as int) =~= prev);
        let key = fs[i].stack;
        assert(key == keys[i as int]);
        let mut p: usize = 0;
        while p < order.len() && stack_le_exec(fs[order[p]].stack, key)
            invariant
                keys == stack_keys(fs.deep_view()),
                i < fs@.len(),
                key == keys[i as int],
                order@.len() == i,
                prev == stack_order(keys, i as int),
                prev.len() == i,
                forall|q: int| 0 <= q < i ==> #[trigger] order@[q] == prev[q],
                forall|q: int| 0 <= q < i ==> 0 <= #[trigger] prev[q] < i,
                p <= order@.len(),
                forall|q: int| 0 <= q < p ==> stack_le(keys[#[trigger] prev[q]], key),
            decreases order@.len() - p,
        {
            assert(prev[p as int] == order@[p as int]);
            p = p + 1;
        }
        if p < order.len() {
            assert(prev[p as int] == order@[p as int]);
        }
        proof {
            lemma_first_greater_at(prev, keys, key, p as int);
        }
        order.insert(p, i);
        assert forall|q: int| 0 <= q < i + 1 implies order@[q] == #[trigger] stack_order(
            keys,
            i + 1,
        )[q] by {
            assert(stack_order(keys, i + 1) == prev.insert(p as int, i as int));
        }
        i = i + 1;
    }
    order
}

/// Stack usages in order.
fn stack_le_exec(a: Option<u64>, b: Option<u64>) -> (r: bool)
    ensures
        r == stack_le(a, b),
{
    match (a, b) {
        (None, _) => true,
        (Some(_), None) => false,
        (Some(x), Some(y)) => x <= y,
    }
}

/// Append the lines of the report for one name of a function.
fn push_name_lines(out: &mut String, f: &StackFunction, name: &str)
    ensures
        final(out)@ == old(out)@ + name_lines(f.deep_view(), name@),
{
    out.append("Function ");
    out.append(demangle_original(name).as_str());
    out.append(" @");
    push_hex(out, f.address);
    out.append("\n");
    out.append("\t size: 0x");
    push_hex(out, f.size);
    match f.stack {
        Some(s) => {
            out.append(", stack: 0x");
            push_hex(out, s);
            out.append("\n");
        },
        None => {
            out.append(", stack: None\n");
        },
    }
    assert(out@ =~= old(out)@ + name_lines(f.deep_view(), name@));
}

/// The stack usage report: every function, the one using most stack first (functions using
/// the same stack in the reverse of their order of address), with two lines per name.
pub fn stack_report(fs: &Vec<StackFunction>) -> (r: String)
    ensures
        r@ == report_text(fs.deep_view(), stack_order(stack_keys(fs.deep_view()), fs@.len() as int)),
{
    let order = sort_by_stack(fs);
    let ghost fv = fs.deep_view();
    let ghost full = stack_order(stack_keys(fv), fs@.len() as int);
    proof {
        lemma_stack_order_range(stack_keys(fv), fs@.len() as int);
    }
    let mut out = String::new();
    let mut t: usize = order.len();
    assert(full.take(t as int) =~= full);
    assert(out@ + report_text(fv, full) =~= report_text(fv, full));
    while t > 0
        invariant
            fv == fs.deep_view(),
            order@.len() == fs@.len(),
            full.len() == fs@.len(),
            forall|q: int| 0 <= q < order@.len() ==> order@[q] == #[trigger] full[q],
            forall|q: int| 0 <= q < full.len() ==> 0 <= #[trigger] full[q] < fs@.len(),
            t <= order@.len(),
            out@ + report_text(fv, full.take(t as int)) == report_text(fv, full),
        decreases t,
    {
        let idx = order[t - 1];
        assert(idx == full[t - 1]);
        let f = &fs[idx];
        assert(fv[idx as int] == f.deep_view());
        let ghost before = out@;
        let mut k: usize = 0;
        while k < f.names.len()
            invariant
                k <= f.names@.len(),
                out@ == before + function_lines(f.deep_view(), k as int),
            decreases f.names@.len() - k,
        {
            assert(f.names.deep_view()[k as int] == f.names@[k as int]@);
            push_name_lines(&mut out, f, f.names[k].as_str());
            assert(out@ =~= before + function_lines(f.deep_view(), k + 1));
            k = k + 1;
        }
        proof {
            assert(full.take(t as int).drop_last() =~= full.take(t - 1));
            assert(full.take(t as int).last() == full[t - 1]);
            assert(f.deep_view().names.len() == f.names@.len());
        }
        t = t - 1;
    }
    assert(full.take(0) =~= Seq::<int>::empty());
    out
}

} // verus!
