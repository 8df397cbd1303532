//! Assembly of a clip from the fragment files mirrored into its directory.
use vstd::prelude::*;
use vstd::utf8::encode_utf8;

verus! {

/// A file of a session directory: its name and its bytes.
#[derive(Clone, Debug)]
pub struct SegmentFile {
    pub name: String,
    pub bytes: Vec<u8>,
}

impl SegmentFile {
    pub fn new(name: String, bytes: Vec<u8>) -> (r: Self)
        ensures
            r.name@ == name@,
            r.bytes@ == bytes@,
    {
        SegmentFile { name, bytes }
    }
}

/// The bytes of a file name.
pub open spec fn name_bytes(name: Seq<char>) -> Seq<u8> {
    encode_utf8(name)
}

/// `.m4s`, the extension of a media fragment.
pub open spec fn fragment_suffix() -> Seq<u8> {
    seq![46u8, 109u8, 52u8, 115u8]
}

/// `concat.m4s`, the name of the assembled output.
pub open spec fn output_name() -> Seq<u8> {
    seq![99u8, 111u8, 110u8, 99u8, 97u8, 116u8, 46u8, 109u8, 52u8, 115u8]
}

/// A fragment is a file whose name ends in `.m4s`, other than the output
/// itself; the initialization segment and the playlist are none.
pub open spec fn is_fragment_name(b: Seq<u8>) -> bool {
    &&& b.len() >= 4
    &&& b.subrange(b.len() - 4, b.len() as int) == fragment_suffix()
    &&& b != output_name()
}

/// Byte-wise lexicographic order; a proper prefix comes first.
pub open spec fn lex_lt(a: Seq<u8>, b: Seq<u8>) -> bool
    decreases a.len(),
{
    if a.len() == 0 {
        b.len() > 0
    } else if b.len() == 0 {
        false
    } else if a[0] != b[0] {
        a[0] < b[0]
    } else {
        lex_lt(a.drop_first(), b.drop_first())
    }
}

pub open spec fn file_name_bytes(files: Seq<SegmentFile>, i: int) -> Seq<u8> {
    name_bytes(files[i].name@)
}

/// The order in which fragments are appended: by name, and by position in
/// the listing between equal names.
pub open spec fn comes_before(files: Seq<SegmentFile>, i: int, j: int) -> bool {
    lex_lt(file_name_bytes(files, i), file_name_bytes(files, j)) || (file_name_bytes(files, i)
        == file_name_bytes(files, j) && i < j)
}

pub open spec fn is_fragment_at(files: Seq<SegmentFile>, i: int) -> bool {
    is_fragment_name(file_name_bytes(files, i))
}

/// `plan` lists the positions of every fragment of `files` once, in
/// increasing name order.
pub open spec fn is_fragment_plan(files: Seq<SegmentFile>, plan: Seq<usize>) -> bool {
    &&& forall|q: int| 0 <= q < plan.len() ==> #[trigger] plan[q] < files.len()
    &&& forall|q: int| 0 <= q < plan.len() ==> is_fragment_at(files, #[trigger] plan[q] as int)
    &&& forall|i: int| 0 <= i < files.len() && is_fragment_at(files, i) ==> plan.contains(i as usize)
    &&& forall|p: int, q: int|
        0 <= p < q < plan.len() ==> comes_before(files, #[trigger] plan[p] as int, #[trigger] plan[q] as int)
}

/// The parts joined end to end.
pub open spec fn concat_all(parts: Seq<Seq<u8>>) -> Seq<u8>
    decreases parts.len(),
{
    if parts.len() == 0 {
        Seq::empty()
    } else {
        concat_all(parts.drop_last()) + parts.last()
    }
}

/// The contents of the files at the positions of `plan`, in that order.
pub open spec fn planned_contents(files: Seq<SegmentFile>, plan: Seq<usize>) -> Seq<Seq<u8>> {
    plan.map_values(|j: usize| files[j as int].bytes@)
}

proof fn lemma_lex_irreflexive(a: Seq<u8>)
    ensures
        !lex_lt(a, a),
    decreases a.len(),
{
    if a.len() > 0 {
        lemma_lex_irreflexive(a.drop_first());
    }
}

proof fn lemma_lex_transitive(a: Seq<u8>, b: Seq<u8>, c: Seq<u8>)
    requires
        lex_lt(a, b),
        lex_lt(b, c),
    ensures
        lex_lt(a, c),
    decreases a.len(),
{
    if a.len() > 0 && b.len() > 0 && c.len() > 0 && a[0] == b[0] && b[0] == c[0] {
        lemma_lex_transitive(a.drop_first(), b.drop_first(), c.drop_first());
    }
}

proof fn lemma_lex_total(a: Seq<u8>, b: Seq<u8>)
    ensures
        lex_lt(a, b) || a == b || lex_lt(b, a),
    decreases a.len(),
{
    if a.len() > 0 && b.len() > 0 && a[0] == b[0] {
        lemma_lex_total(a.drop_first(), b.drop_first());
        if a.drop_first() == b.drop_first() {
            assert(a =~= seq![a[0]] + a.drop_first());
            assert(b =~= seq![b[0]] + b.drop_first());
        }
    } else if a.len() == 0 && b.len() == 0 {
        assert(a =~= b);
    }
}

/// Whether `a` comes strictly before `b` in byte-wise lexicographic order.
pub fn bytes_lt(a: &[u8], b: &[u8]) -> (r: bool)
    ensures
        r == lex_lt(a@, b@),
{
    let mut i: usize = 0;
    proof {
        assert(a@.skip(0) =~= a@);
        assert(b@.skip(0) =~= b@);
    }
    while i < a.len() && i < b.len()
        invariant
            i <= a@.len(),
            i <= b@.len(),
            lex_lt(a@, b@) == lex_lt(a@.skip(i as int), b@.skip(i as int)),
        decreases a@.len() - i,
    {
        proof {
            assert(a@.skip(i as int).drop_first() =~= a@.skip(i + 1));
            assert(b@.skip(i as int).drop_first() =~= b@.skip(i + 1));
            assert(a@.skip(i as int)[0] == a@[i as int]);
            assert(b@.skip(i as int)[0] == b@[i as int]);
        }
        if a[i] != b[i] {
            return a[i] < b[i];
        }
        i = i + 1;
    }
    proof {
        assert(a@.skip(i as int).len() == 0 || b@.skip(i as int).len() == 0);
    }
    i < b.len()
}

/// Whether `b[start..start + pat.len()]` equals `pat`.
fn matches_at(b: &[u8], start: usize, pat: &Vec<u8>) -> (r: bool)
    requires
        start + pat@.len() <= b@.len(),
    ensures
        r == (b@.subrange(start as int, start + pat@.len()) == pat@),
{
    let blen = b.len();
    let mut k: usize = 0;
    while k < pat.len()
        invariant
            k <= pat@.len(),
            start + pat@.len() <= b@.len(),
            blen == b@.len(),
            forall|m: int| 0 <= m < k ==> b@[start + m] == pat@[m],
        decreases pat@.len() - k,
    {
        if b[start + k] != pat[k] {
            proof {
                assert(b@.subrange(start as int, start + pat@.len())[k as int] != pat@[k as int]);
            }
            return false;
        }
        k = k + 1;
    }
    proof {
        assert(b@.subrange(start as int, start + pat@.len()) =~= pat@);
    }
    true
}

/// Whether a file name marks a fragment to assemble: it ends in `.m4s` and
/// is not the output `concat.m4s`.
pub fn is_fragment(name: &String) -> (r: bool)
    ensures
        r == is_fragment_name(name_bytes(name@)),
{
    let b = name.as_str().as_bytes();
    let n = b.len();
    if n < 4 {
        return false;
    }
    let suffix: Vec<u8> = vec![46u8, 109u8, 52u8, 115u8];
    let whole: Vec<u8> = vec![99u8, 111u8, 110u8, 99u8, 97u8, 116u8, 46u8, 109u8, 52u8, 115u8];
    proof {
        assert(suffix@ =~= fragment_suffix());
        assert(whole@ =~= output_name());
    }
    if !matches_at(b, n - 4, &suffix) {
        return false;
    }
    if n == 10 && matches_at(b, 0, &whole) {
        proof {
            assert(b@.subrange(0, 10) =~= b@);
        }
        return false;
    }
    proof {
        if n == 10 {
            assert(b@.subrange(0, 10) =~= b@);
        }
    }
    true
}

proof fn lemma_comes_before_transitive(files: Seq<SegmentFile>, i: int, j: int, k: int)
    requires
        comes_before(files, i, j),
        comes_before(files, j, k),
    ensures
        comes_before(files, i, k),
{
    let (a, b, c) = (file_name_bytes(files, i), file_name_bytes(files, j), file_name_bytes(files, k));
    if lex_lt(a, b) && lex_lt(b, c) {
        lemma_lex_transitive(a, b, c);
    }
}

/// The positions of the fragments of `files`, ordered by name.
pub fn fragment_order(files: &Vec<SegmentFile>) -> (plan: Vec<usize>)
    ensures
        is_fragment_plan(files@, plan@),
{
    let mut plan: Vec<usize> = Vec::new();
    let mut i: usize = 0;
    while i < files.len()
        invariant
            i <= files@.len(),
            forall|q: int| 0 <= q < plan@.len() ==> #[trigger] plan@[q] < i,
            forall|q: int| 0 <= q < plan@.len() ==> is_fragment_at(files@, #[trigger] plan@[q] as int),
            forall|j: int| 0 <= j < i && is_fragment_at(files@, j) ==> plan@.contains(j as usize),
            forall|p: int, q: int|
                0 <= p < q < plan@.len() ==> comes_before(files@, #[trigger] plan@[p] as int, #[trigger] plan@[q] as int),
        decreases files@.len() - i,
    {
        if is_fragment(&files[i].name) {
            let name = files[i].name.as_str().as_bytes();
            let mut p: usize = plan.len();
            while p > 0 && bytes_lt(name, files[plan[p - 1]].name.as_str().as_bytes())
                invariant
                    p <= plan@.len(),
                    i < files@.len(),
                    name@ == file_name_bytes(files@, i as int),
                    forall|q: int| 0 <= q < plan@.len() ==> #[trigger] plan@[q] < i,
                    forall|q: int|
                        p <= q < plan@.len() ==> lex_lt(name@, file_name_bytes(files@, #[trigger] plan@[q] as int)),
                decreases p,
            {
                p = p - 1;
            }
            let ghost old_plan = plan@;
            proof {
                assert forall|q: int| 0 <= q < p implies comes_before(files@, #[trigger] old_plan[q] as int, i as int) by {
                    let last = old_plan[p - 1] as int;
                    let nl = file_name_bytes(files@, last);
                    let nq = file_name_bytes(files@, old_plan[q] as int);
                    lemma_lex_total(name@, nl);
                    if q < p - 1 {
                        assert(comes_before(files@, old_plan[q] as int, last));
                        if lex_lt(nq, nl) {
                            if nl == name@ {
                            } else {
                                lemma_lex_transitive(nq, nl, name@);
                            }
                        } else {
                            if nl == name@ {
                            } else {
                                assert(nq == nl);
                            }
                        }
                    }
                }
            }
            plan.insert(p, i);
            proof {
                let np = plan@;
                assert(np[p as int] == i);
                assert forall|q: int| 0 <= q < np.len() implies #[trigger] np[q] < i + 1 by {
                    if q > p { assert(np[q] == old_plan[q - 1]); }
                }
                assert forall|q: int| 0 <= q < np.len() implies is_fragment_at(files@, #[trigger] np[q] as int) by {
                    if q > p { assert(np[q] == old_plan[q - 1]); }
                }
                assert forall|j: int| 0 <= j < i + 1 && is_fragment_at(files@, j) implies np.contains(j as usize) by {
                    if j == i {
                        assert(np[p as int] == j as usize);
                    } else {
                        assert(old_plan.contains(j as usize));
                        let q = choose|q: int| 0 <= q < old_plan.len() && old_plan[q] == j as usize;
                        if q < p {
                            assert(np[q] == j as usize);
                        } else {
                            assert(np[q + 1] == j as usize);
                        }
                    }
                }
                assert forall|a: int, b: int| 0 <= a < b < np.len() implies comes_before(files@, #[trigger] np[a] as int, #[trigger] np[b] as int) by {
                    if b < p {
                    } else if b == p {
                    } else if a < p {
                        assert(np[b] == old_plan[b - 1]);
                        assert(comes_before(files@, i as int, old_plan[b - 1] as int));
                        lemma_comes_before_transitive(files@, np[a] as int, i as int, np[b] as int);
                    } else if a == p {
                        assert(np[b] == old_plan[b - 1]);
                    } else {
                        assert(np[a] == old_plan[a - 1]);
                        assert(np[b] == old_plan[b - 1]);
                    }
                }
            }
        }
        i = i + 1;
    }
    plan
}

/// Appends the bytes of `src` to `out`.
fn append_bytes(out: &mut Vec<u8>, src: &Vec<u8>)
    ensures
        final(out)@ == old(out)@ + src@,
{
    let mut k: usize = 0;
    while k < src.len()
        invariant
            k <= src@.len(),
            out@ == old(out)@ + src@.take(k as int),
        decreases src@.len() - k,
    {
        out.push(src[k]);
        k = k + 1;
        assert(out@ =~= old(out)@ + src@.take(k as int));
    }
    assert(src@.take(k as int) =~= src@);
}

/// The clip's single contiguous fragment stream: the initialization segment,
/// then the bytes of every fragment of the session directory in increasing
/// name order. The output file itself, the initialization segment and any
/// file not ending in `.m4s` are left out.
pub fn assemble_clip(init: &Vec<u8>, files: &Vec<SegmentFile>) -> (r: Vec<u8>)
    ensures
        exists|plan: Seq<usize>|
            {
                &&& is_fragment_plan(files@, plan)
                &&& r@ == init@ + concat_all(planned_contents(files@, plan))
            },
{
    let plan = fragment_order(files);
    let mut out: Vec<u8> = Vec::new();
    append_bytes(&mut out, init);
    let mut q: usize = 0;
    while q < plan.len()
        invariant
            q <= plan@.len(),
            is_fragment_plan(files@, plan@),
            out@ == init@ + concat_all(planned_contents(files@, plan@.take(q as int))),
        decreases plan@.len() - q,
    {
        let j = plan[q];
        append_bytes(&mut out, &files[j].bytes);
        proof {
            let parts = planned_contents(files@, plan@.take(q + 1));
            assert(parts.drop_last() =~= planned_contents(files@, plan@.take(q as int)));
            assert(parts.last() == files@[j as int].bytes@);
        }
        q = q + 1;
    }
    assert(plan@.take(q as int) =~= plan@);
    out
}

pub open spec fn sorted_by_name(files: Seq<SegmentFile>, s: Seq<usize>) -> bool {
    forall|p: int, q: int|
        0 <= p < q < s.len() ==> comes_before(files, #[trigger] s[p] as int, #[trigger] s[q] as int)
}

proof fn lemma_comes_before_irreflexive(files: Seq<SegmentFile>, i: int)
    ensures
        !comes_before(files, i, i),
{
    lemma_lex_irreflexive(file_name_bytes(files, i));
}

proof fn lemma_sorted_unique(files: Seq<SegmentFile>, s1: Seq<usize>, s2: Seq<usize>)
    requires
        sorted_by_name(files, s1),
        sorted_by_name(files, s2),
        forall|x: usize| s1.contains(x) <==> s2.contains(x),
    ensures
        s1 == s2,
    decreases s1.len() + s2.len(),
{
    if s1.len() == 0 {
        if s2.len() > 0 {
            assert(s2.contains(s2[0]));
        }
        assert(s1 =~= s2);
    } else if s2.len() == 0 {
        assert(s1.contains(s1[0]));
    } else {
        let a = s1[0];
        let b = s2[0];
        assert(s1.contains(a));
        assert(s2.contains(b));
        if a != b {
            let k = choose|k: int| 0 <= k < s2.len() && s2[k] == a;
            let m = choose|m: int| 0 <= m < s1.len() && s1[m] == b;
            assert(k != 0 && m != 0);
            assert(comes_before(files, b as int, a as int));
            assert(comes_before(files, a as int, b as int));
            lemma_comes_before_transitive(files, a as int, b as int, a as int);
            lemma_comes_before_irreflexive(files, a as int);
        }
        let t1 = s1.drop_first();
        let t2 = s2.drop_first();
        assert forall|x: usize| t1.contains(x) <==> t2.contains(x) by {
            if t1.contains(x) {
                let k = choose|k: int| 0 <= k < t1.len() && t1[k] == x;
                assert(s1[k + 1] == x);
                assert(comes_before(files, a as int, x as int));
                lemma_comes_before_irreflexive(files, a as int);
                assert(s2.contains(x));
                let j = choose|j: int| 0 <= j < s2.len() && s2[j] == x;
                assert(j != 0);
                assert(t2[j - 1] == x);
            }
            if t2.contains(x) {
                let k = choose|k: int| 0 <= k < t2.len() && t2[k] == x;
                assert(s2[k + 1] == x);
                assert(comes_before(files, b as int, x as int));
                lemma_comes_before_irreflexive(files, b as int);
                assert(s1.contains(x));
                let j = choose|j: int| 0 <= j < s1.len() && s1[j] == x;
                assert(j != 0);
                assert(t1[j - 1] == x);
            }
        }
        assert(sorted_by_name(files, t1)) by {
            assert forall|p: int, q: int| 0 <= p < q < t1.len() implies comes_before(files, #[trigger] t1[p] as int, #[trigger] t1[q] as int) by {
                assert(t1[p] == s1[p + 1] && t1[q] == s1[q + 1]);
            }
        }
        assert(sorted_by_name(files, t2)) by {
            assert forall|p: int, q: int| 0 <= p < q < t2.len() implies comes_before(files, #[trigger] t2[p] as int, #[trigger] t2[q] as int) by {
                assert(t2[p] == s2[p + 1] && t2[q] == s2[q + 1]);
            }
        }
        lemma_sorted_unique(files, t1, t2);
        assert(s1 =~= seq![a] + t1);
        assert(s2 =~= seq![b] + t2);
    }
}

/// There is one fragment plan for a listing: the fragments, each once, in
/// increasing name order. So the output of `assemble_clip` is determined by
/// its arguments.
pub proof fn lemma_fragment_plan_unique(files: Seq<SegmentFile>, first: Seq<usize>, second: Seq<usize>)
    requires
        is_fragment_plan(files, first),
        is_fragment_plan(files, second),
    ensures
        first == second,
{
    assert forall|x: usize| first.contains(x) <==> second.contains(x) by {
        if first.contains(x) {
            let k = choose|k: int| 0 <= k < first.len() && first[k] == x;
            assert(first[k] < files.len());
            assert(is_fragment_at(files, first[k] as int));
        }
        if second.contains(x) {
            let k = choose|k: int| 0 <= k < second.len() && second[k] == x;
            assert(second[k] < files.len());
            assert(is_fragment_at(files, second[k] as int));
        }
    }
    lemma_sorted_unique(files, first, second);
}

} // verus!
