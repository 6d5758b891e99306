//! Stable ordering by a composite key: usage count (higher first), then a
//! text (lexicographic), then a number (smaller first). Ties keep the order
//! the items came in, as `sort_by` does.

use vstd::prelude::*;
use crate::texto::{lex_menor, lex_menor_exec, iguais, lemma_lex_irreflexivo, lemma_lex_transitivo, lemma_lex_total};

verus! {

/// A sorting key: usage count, text and a further number.
pub struct ChaveOrdem {
    pub uso: u32,
    pub texto: Vec<char>,
    pub extra: u128,
}

impl View for ChaveOrdem {
    type V = (u32, Seq<char>, int);

    open spec fn view(&self) -> (u32, Seq<char>, int) {
        (self.uso, self.texto@, self.extra as int)
    }
}

/// The keys of a list of sorting keys, as values.
pub open spec fn vistas_chaves(ks: Seq<ChaveOrdem>) -> Seq<(u32, Seq<char>, int)> {
    ks.map_values(|k: ChaveOrdem| k@)
}

/// Key `a` sorts strictly before key `b`: a higher usage count first, then
/// the smaller text, then the smaller number.
pub open spec fn chave_menor(a: (u32, Seq<char>, int), b: (u32, Seq<char>, int)) -> bool {
    ||| a.0 > b.0
    ||| a.0 == b.0 && lex_menor(a.1, b.1)
    ||| a.0 == b.0 && a.1 == b.1 && a.2 < b.2
}

/// Item `i` comes before item `j` in a stable sort by these keys.
pub open spec fn vem_antes(ks: Seq<(u32, Seq<char>, int)>, i: int, j: int) -> bool {
    chave_menor(ks[i], ks[j]) || (ks[i] == ks[j] && i < j)
}

/// `p` lists the positions `0..ks.len()` in the order a stable sort by the
/// keys `ks` puts them.
pub open spec fn ordem_estavel(ks: Seq<(u32, Seq<char>, int)>, p: Seq<usize>) -> bool {
    &&& p.len() == ks.len()
    &&& forall|i: int| 0 <= i < p.len() ==> #[trigger] p[i] < ks.len()
    &&& forall|v: usize| v < ks.len() ==> #[trigger] p.contains(v)
    &&& forall|i: int, j: int| 0 <= i < j < p.len() ==> vem_antes(ks, #[trigger] p[i] as int, #[trigger] p[j] as int)
}

/// `res` is `orig` sorted stably by the keys `ks` (one key per item).
pub open spec fn reordenado<T>(orig: Seq<T>, ks: Seq<(u32, Seq<char>, int)>, res: Seq<T>) -> bool {
    &&& ks.len() == orig.len()
    &&& exists|p: Seq<usize>| #[trigger] ordem_estavel(ks, p) && permutado(orig, p, res)
}

/// `res` holds the items of `orig` at the positions `p`.
pub open spec fn permutado<T>(orig: Seq<T>, p: Seq<usize>, res: Seq<T>) -> bool {
    &&& res.len() == p.len()
    &&& forall|i: int| 0 <= i < res.len() ==> #[trigger] res[i] == orig[p[i] as int]
}

pub proof fn lemma_chave_irreflexiva(a: (u32, Seq<char>, int))
    ensures
        !chave_menor(a, a),
{
    lemma_lex_irreflexivo(a.1, 0);
}

pub proof fn lemma_chave_transitiva(a: (u32, Seq<char>, int), b: (u32, Seq<char>, int), c: (u32, Seq<char>, int))
    requires
        chave_menor(a, b),
        chave_menor(b, c),
    ensures
        chave_menor(a, c),
{
    if a.0 == b.0 && b.0 == c.0 && lex_menor(a.1, b.1) && lex_menor(b.1, c.1) {
        lemma_lex_transitivo(a.1, b.1, c.1, 0);
    }
}

pub proof fn lemma_chave_total(a: (u32, Seq<char>, int), b: (u32, Seq<char>, int))
    requires
        a != b,
    ensures
        chave_menor(a, b) || chave_menor(b, a),
{
    if a.0 == b.0 && a.1 != b.1 {
        assert(a.1.subrange(0, 0) =~= b.1.subrange(0, 0));
        lemma_lex_total(a.1, b.1, 0);
    }
}

/// Whether key `a` sorts strictly before key `b`.
pub fn chave_menor_exec(a: &ChaveOrdem, b: &ChaveOrdem) -> (r: bool)
    ensures
        r == chave_menor(a@, b@),
{
    if a.uso != b.uso {
        return a.uso > b.uso;
    }
    if lex_menor_exec(&a.texto, &b.texto) {
        return true;
    }
    if !iguais(&a.texto, &b.texto) {
        return false;
    }
    a.extra < b.extra
}

/// The positions of the keys in the order of a stable sort (insertion
/// sort: each item goes after every item that does not sort after it).
pub fn ordem_estavel_de(ks: &Vec<ChaveOrdem>) -> (p: Vec<usize>)
    ensures
        ordem_estavel(vistas_chaves(ks@), p@),
{
    let ghost kv = vistas_chaves(ks@);
    let mut p: Vec<usize> = Vec::new();
    let mut k: usize = 0;
    while k < ks.len()
        invariant
            k <= ks.len(),
            kv == vistas_chaves(ks@),
            p.len() == k,
            forall|i: int| 0 <= i < p.len() ==> #[trigger] p@[i] < k,
            forall|v: usize| v < k ==> #[trigger] p@.contains(v),
            forall|i: int, j: int| 0 <= i < j < p.len() ==> vem_antes(kv, #[trigger] p@[i] as int, #[trigger] p@[j] as int),
        decreases ks.len() - k,
    {
        let mut j: usize = 0;
        while j < p.len() && !chave_menor_exec(&ks[k], &ks[p[j]])
            invariant
                j <= p.len(),
                k < ks.len(),
                kv == vistas_chaves(ks@),
                forall|i: int| 0 <= i < p.len() ==> #[trigger] p@[i] < k,
                forall|x: int| 0 <= x < j ==> !chave_menor(kv[k as int], kv[#[trigger] p@[x] as int]),
            decreases p.len() - j,
        {
            j = j + 1;
        }
        let ghost velho = p@;
        p.insert(j, k);
        proof {
            assert(p@ =~= velho.subrange(0, j as int).push(k).add(velho.subrange(j as int, velho.len() as int)));
            assert forall|i: int| 0 <= i < p.len() implies #[trigger] p@[i] < k + 1 by {
                if i < j {
                    assert(p@[i] == velho[i]);
                } else if i > j {
                    assert(p@[i] == velho[i - 1]);
                }
            }
            assert forall|v: usize| v < k + 1 implies #[trigger] p@.contains(v) by {
                if v == k {
                    assert(p@[j as int] == k);
                } else {
                    assert(velho.contains(v));
                    let w = choose|w: int| 0 <= w < velho.len() && velho[w] == v;
                    if w < j {
                        assert(p@[w] == velho[w]);
                    } else {
                        assert(p@[w + 1] == velho[w]);
                    }
                }
            }
            assert forall|a: int, b: int| 0 <= a < b < p.len() implies vem_antes(kv, #[trigger] p@[a] as int, #[trigger] p@[b] as int) by {
                lemma_insercao_ordenada(kv, velho, p@, j as int, k, a, b);
            }
        }
        k = k + 1;
    }
    p
}

proof fn lemma_insercao_ordenada(
    kv: Seq<(u32, Seq<char>, int)>,
    velho: Seq<usize>,
    novo: Seq<usize>,
    j: int,
    k: usize,
    a: int,
    b: int,
)
    requires
        0 <= j <= velho.len(),
        k < kv.len(),
        novo == velho.subrange(0, j).push(k).add(velho.subrange(j, velho.len() as int)),
        forall|i: int| 0 <= i < velho.len() ==> #[trigger] velho[i] < k,
        forall|x: int| 0 <= x < j ==> !chave_menor(kv[k as int], kv[#[trigger] velho[x] as int]),
        j < velho.len() ==> chave_menor(kv[k as int], kv[velho[j] as int]),
        forall|x: int, y: int| 0 <= x < y < velho.len() ==> vem_antes(kv, #[trigger] velho[x] as int, #[trigger] velho[y] as int),
        0 <= a < b < novo.len(),
    ensures
        vem_antes(kv, novo[a] as int, novo[b] as int),
{
    let na = novo[a] as int;
    let nb = novo[b] as int;
    assert(novo.len() == velho.len() + 1);
    assert(novo[j] == k);
    assert(forall|x: int| 0 <= x < j ==> novo[x] == velho[x]);
    assert(forall|x: int| j < x < novo.len() ==> novo[x] == velho[x - 1]);
    if a < j && b < j {
        assert(novo[a] == velho[a] && novo[b] == velho[b]);
    } else if a < j && b == j {
        assert(novo[a] == velho[a]);
        assert(nb == k as int);
        assert(na < k as int);
        assert(!chave_menor(kv[k as int], kv[na]));
        if kv[na] != kv[k as int] {
            lemma_chave_total(kv[na], kv[k as int]);
        }
    } else if a < j && b > j {
        assert(novo[a] == velho[a] && novo[b] == velho[b - 1]);
    } else if a == j {
        assert(novo[b] == velho[b - 1]);
        assert(chave_menor(kv[k as int], kv[velho[j] as int]));
        if b - 1 > j {
            assert(vem_antes(kv, velho[j] as int, velho[b - 1] as int));
            if chave_menor(kv[velho[j] as int], kv[nb]) {
                lemma_chave_transitiva(kv[k as int], kv[velho[j] as int], kv[nb]);
            }
        }
    } else {
        assert(novo[a] == velho[a - 1] && novo[b] == velho[b - 1]);
    }
}

proof fn lemma_vem_antes_assimetrico(ks: Seq<(u32, Seq<char>, int)>, i: int, j: int)
    requires
        vem_antes(ks, i, j),
    ensures
        !vem_antes(ks, j, i),
        i != j,
{
    lemma_chave_irreflexiva(ks[i]);
    lemma_chave_irreflexiva(ks[j]);
    if chave_menor(ks[i], ks[j]) && chave_menor(ks[j], ks[i]) {
        lemma_chave_transitiva(ks[i], ks[j], ks[i]);
    }
}

proof fn lemma_posicoes_iguais(ks: Seq<(u32, Seq<char>, int)>, p1: Seq<usize>, p2: Seq<usize>, i: int)
    requires
        ordem_estavel(ks, p1),
        ordem_estavel(ks, p2),
        0 <= i < p1.len(),
        forall|k: int| 0 <= k < i ==> p1[k] == p2[k],
    ensures
        p1[i] == p2[i],
{
    let x = p1[i];
    let y = p2[i];
    if x != y {
        assert(p1.contains(y));
        let j = choose|j: int| 0 <= j < p1.len() && p1[j] == y;
        if j < i {
            assert(p2[j] == y);
            assert(vem_antes(ks, p2[j] as int, p2[i] as int));
            lemma_vem_antes_assimetrico(ks, y as int, y as int);
        }
        assert(p2.contains(x));
        let k = choose|k: int| 0 <= k < p2.len() && p2[k] == x;
        if k < i {
            assert(p1[k] == x);
            assert(vem_antes(ks, p1[k] as int, p1[i] as int));
            lemma_vem_antes_assimetrico(ks, x as int, x as int);
        }
        assert(j > i && k > i);
        assert(vem_antes(ks, p1[i] as int, p1[j] as int));
        assert(vem_antes(ks, p2[i] as int, p2[k] as int));
        lemma_vem_antes_assimetrico(ks, x as int, y as int);
    }
}

proof fn lemma_prefixos_iguais(ks: Seq<(u32, Seq<char>, int)>, p1: Seq<usize>, p2: Seq<usize>, n: int)
    requires
        ordem_estavel(ks, p1),
        ordem_estavel(ks, p2),
        0 <= n <= p1.len(),
    ensures
        forall|k: int| 0 <= k < n ==> p1[k] == p2[k],
    decreases n,
{
    if n > 0 {
        lemma_prefixos_iguais(ks, p1, p2, n - 1);
        lemma_posicoes_iguais(ks, p1, p2, n - 1);
    }
}

/// A stable sort has a single outcome: two orders that both sort the same
/// keys stably are the same order.
pub proof fn lei_ordem_estavel_unica(ks: Seq<(u32, Seq<char>, int)>, p1: Seq<usize>, p2: Seq<usize>)
    requires
        ordem_estavel(ks, p1),
        ordem_estavel(ks, p2),
    ensures
        p1 == p2,
{
    lemma_prefixos_iguais(ks, p1, p2, p1.len() as int);
    assert(p1 =~= p2);
}

/// Sorting the same items stably by the same keys gives the same list.
pub proof fn lei_reordenado_unico<T>(orig: Seq<T>, ks: Seq<(u32, Seq<char>, int)>, r1: Seq<T>, r2: Seq<T>)
    requires
        reordenado(orig, ks, r1),
        reordenado(orig, ks, r2),
    ensures
        r1 == r2,
{
    let p1 = choose|p: Seq<usize>| #[trigger] ordem_estavel(ks, p) && permutado(orig, p, r1);
    let p2 = choose|p: Seq<usize>| #[trigger] ordem_estavel(ks, p) && permutado(orig, p, r2);
    lei_ordem_estavel_unica(ks, p1, p2);
    assert(r1 =~= r2);
}

proof fn lemma_permutacao_multiset<T>(orig: Seq<T>, p: Seq<usize>, res: Seq<T>)
    requires
        p.len() == orig.len(),
        res.len() == p.len(),
        forall|i: int| 0 <= i < p.len() ==> #[trigger] p[i] < orig.len(),
        forall|i: int, j: int| 0 <= i < j < p.len() ==> #[trigger] p[i] != #[trigger] p[j],
        forall|i: int| 0 <= i < res.len() ==> #[trigger] res[i] == orig[p[i] as int],
    ensures
        res.to_multiset() == orig.to_multiset(),
    decreases p.len(),
{
    broadcast use vstd::multiset::group_multiset_axioms;

    if p.len() == 0 {
        assert(orig =~= Seq::<T>::empty());
        assert(res =~= Seq::<T>::empty());
    } else {
        let n = p.len() - 1;
        let j = p[n] as int;
        let o2 = orig.remove(j);
        let q = Seq::new(n as nat, |i: int| if p[i] < p[n] { p[i] } else { (p[i] - 1) as usize });
        let r2 = res.drop_last();
        assert forall|i: int| 0 <= i < q.len() implies #[trigger] q[i] < o2.len() by {
            assert(p[i] != p[n]);
        }
        assert forall|a: int, b: int| 0 <= a < b < q.len() implies #[trigger] q[a] != #[trigger] q[b] by {
            assert(p[a] != p[b]);
            assert(p[a] != p[n] && p[b] != p[n]);
        }
        assert forall|i: int| 0 <= i < r2.len() implies #[trigger] r2[i] == o2[q[i] as int] by {
            assert(r2[i] == res[i]);
            assert(p[i] != p[n]);
        }
        lemma_permutacao_multiset(o2, q, r2);
        assert(res =~= r2.push(res[n]));
        vstd::seq_lib::to_multiset_build(r2, res[n]);
        vstd::seq_lib::to_multiset_remove(orig, j);
        vstd::seq_lib::to_multiset_contains(orig, orig[j]);
        assert(orig.contains(orig[j]));
        assert(res[n] == orig[j]);
        assert(orig.to_multiset().remove(orig[j]).insert(orig[j]) =~= orig.to_multiset());
    }
}

/// A stable order lists no position twice.
pub proof fn lei_ordem_estavel_injetiva(ks: Seq<(u32, Seq<char>, int)>, p: Seq<usize>, i: int, j: int)
    requires
        ordem_estavel(ks, p),
        0 <= i < j < p.len(),
    ensures
        p[i] != p[j],
{
    lemma_vem_antes_assimetrico(ks, p[i] as int, p[j] as int);
}

/// Sorting keeps every item exactly as many times as it came.
pub proof fn lei_reordenado_multiset<T>(orig: Seq<T>, ks: Seq<(u32, Seq<char>, int)>, res: Seq<T>)
    requires
        reordenado(orig, ks, res),
    ensures
        res.to_multiset() == orig.to_multiset(),
{
    let p = choose|p: Seq<usize>| #[trigger] ordem_estavel(ks, p) && permutado(orig, p, res);
    assert forall|i: int, j: int| 0 <= i < j < p.len() implies #[trigger] p[i] != #[trigger] p[j] by {
        lemma_vem_antes_assimetrico(ks, p[i] as int, p[j] as int);
    }
    lemma_permutacao_multiset(orig, p, res);
}

} // verus!
