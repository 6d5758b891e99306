//! The search of the central column: an application matches when the
//! lowercase query is a subsequence of its lowercase name; matches are shown
//! most started first, then by how early in the name the match ends.

use vstd::prelude::*;
use crate::texto::{minusculas, minusculas_de, proxima, lemma_proxima, bytes_utf8, largura_utf8, largura_utf8_exec};
use crate::ordem::{ChaveOrdem, vistas_chaves, ordem_estavel, ordem_estavel_de, reordenado, permutado, lei_reordenado_unico, lei_reordenado_multiset};
use crate::aplicativo::{AppLauncher, VistaApp, vistas_apps, aplicar_ordem, copiar_lista};

verus! {

/// Greedy left-to-right match of the query `q` in `nome` from index `pos`:
/// each query character is taken at its first occurrence after the previous
/// one. Gives the index just after the last character taken.
pub open spec fn casar_de(nome: Seq<char>, q: Seq<char>, pos: int) -> Option<int>
    decreases q.len(),
{
    if q.len() == 0 {
        Some(pos)
    } else {
        let j = proxima(nome, q[0], pos);
        if j >= nome.len() {
            None
        } else {
            casar_de(nome, q.drop_first(), j + 1)
        }
    }
}

/// The score of a match: the UTF-8 byte offset in the name just after the
/// last query character taken, or `None` when the query does not match.
pub open spec fn pontuacao(nome: Seq<char>, q: Seq<char>) -> Option<nat> {
    match casar_de(nome, q, 0) {
        Some(f) => Some(bytes_utf8(nome.subrange(0, f))),
        None => None,
    }
}

/// `q` occurs in `s` as a subsequence, at indices `pos` or later.
pub open spec fn subsequencia_desde(q: Seq<char>, s: Seq<char>, pos: int) -> bool {
    exists|idx: Seq<int>| #[trigger] indices_de(idx, q, s, pos)
}

/// `idx` places the characters of `q` in `s`, in increasing order, at `pos`
/// or later.
pub open spec fn indices_de(idx: Seq<int>, q: Seq<char>, s: Seq<char>, pos: int) -> bool {
    &&& idx.len() == q.len()
    &&& forall|i: int| 0 <= i < idx.len() ==> pos <= #[trigger] idx[i] < s.len() && s[idx[i]] == q[i]
    &&& forall|i: int, j: int| 0 <= i < j < idx.len() ==> #[trigger] idx[i] < #[trigger] idx[j]
}

/// `q` occurs in `s` as a subsequence.
pub open spec fn eh_subsequencia(q: Seq<char>, s: Seq<char>) -> bool {
    subsequencia_desde(q, s, 0)
}

proof fn lemma_casar_completo(nome: Seq<char>, q: Seq<char>, pos: int, idx: Seq<int>)
    requires
        0 <= pos,
        indices_de(idx, q, nome, pos),
    ensures
        casar_de(nome, q, pos) is Some,
    decreases q.len(),
{
    if q.len() > 0 {
        let k = idx[0];
        if pos <= nome.len() {
            lemma_proxima(nome, q[0], pos);
        }
        let j = proxima(nome, q[0], pos);
        assert(j <= k);
        let resto = idx.drop_first();
        assert(indices_de(resto, q.drop_first(), nome, j + 1)) by {
            assert forall|i: int| 0 <= i < resto.len() implies j + 1 <= #[trigger] resto[i] < nome.len()
                && nome[resto[i]] == q.drop_first()[i] by {
                assert(resto[i] == idx[i + 1]);
                assert(idx[0] < idx[i + 1]);
            }
            assert forall|a: int, b: int| 0 <= a < b < resto.len() implies #[trigger] resto[a] < #[trigger] resto[b] by {
                assert(resto[a] == idx[a + 1] && resto[b] == idx[b + 1]);
            }
        }
        lemma_casar_completo(nome, q.drop_first(), j + 1, resto);
    }
}

proof fn lemma_casar_correto(nome: Seq<char>, q: Seq<char>, pos: int)
    requires
        0 <= pos <= nome.len(),
        casar_de(nome, q, pos) is Some,
    ensures
        subsequencia_desde(q, nome, pos),
    decreases q.len(),
{
    if q.len() == 0 {
        assert(indices_de(Seq::<int>::empty(), q, nome, pos));
    } else {
        lemma_proxima(nome, q[0], pos);
        let j = proxima(nome, q[0], pos);
        lemma_casar_correto(nome, q.drop_first(), j + 1);
        let resto = choose|idx: Seq<int>| #[trigger] indices_de(idx, q.drop_first(), nome, j + 1);
        let idx = seq![j].add(resto);
        assert(indices_de(idx, q, nome, pos)) by {
            assert forall|i: int| 0 <= i < idx.len() implies pos <= #[trigger] idx[i] < nome.len() && nome[idx[i]] == q[i] by {
                if i > 0 {
                    assert(idx[i] == resto[i - 1]);
                    assert(q[i] == q.drop_first()[i - 1]);
                }
            }
            assert forall|a: int, b: int| 0 <= a < b < idx.len() implies #[trigger] idx[a] < #[trigger] idx[b] by {
                assert(idx[b] == resto[b - 1]);
                if a > 0 {
                    assert(idx[a] == resto[a - 1]);
                }
            }
        }
    }
}

/// A query matches a name exactly when it is a subsequence of the name.
pub proof fn lei_casamento_subsequencia(nome: Seq<char>, q: Seq<char>)
    ensures
        casar_de(nome, q, 0) is Some <==> eh_subsequencia(q, nome),
{
    if casar_de(nome, q, 0) is Some {
        lemma_casar_correto(nome, q, 0);
    }
    if eh_subsequencia(q, nome) {
        let idx = choose|idx: Seq<int>| #[trigger] indices_de(idx, q, nome, 0);
        lemma_casar_completo(nome, q, 0, idx);
    }
}

proof fn lemma_casar_mais_cedo(nome: Seq<char>, q: Seq<char>, pos: int, idx: Seq<int>)
    requires
        0 <= pos,
        q.len() > 0,
        indices_de(idx, q, nome, pos),
    ensures
        casar_de(nome, q, pos) matches Some(f) && f <= idx.last() + 1,
    decreases q.len(),
{
    let k = idx[0];
    if pos <= nome.len() {
        lemma_proxima(nome, q[0], pos);
    }
    let j = proxima(nome, q[0], pos);
    assert(j <= k);
    if q.len() > 1 {
        let resto = idx.drop_first();
        assert(indices_de(resto, q.drop_first(), nome, j + 1)) by {
            assert forall|i: int| 0 <= i < resto.len() implies j + 1 <= #[trigger] resto[i] < nome.len()
                && nome[resto[i]] == q.drop_first()[i] by {
                assert(resto[i] == idx[i + 1]);
                assert(idx[0] < idx[i + 1]);
            }
            assert forall|a: int, b: int| 0 <= a < b < resto.len() implies #[trigger] resto[a] < #[trigger] resto[b] by {
                assert(resto[a] == idx[a + 1] && resto[b] == idx[b + 1]);
            }
        }
        lemma_casar_mais_cedo(nome, q.drop_first(), j + 1, resto);
        assert(resto.last() == idx.last());
    } else {
        assert(q.drop_first().len() == 0);
    }
}

/// The greedy match ends at least as early as any placement of the query
/// in the name: the score is the earliest end of a match.
pub proof fn lei_casamento_mais_cedo(nome: Seq<char>, q: Seq<char>, idx: Seq<int>)
    requires
        q.len() > 0,
        indices_de(idx, q, nome, 0),
    ensures
        casar_de(nome, q, 0) matches Some(f) && f <= idx.last() + 1,
{
    lemma_casar_mais_cedo(nome, q, 0, idx);
}

proof fn lemma_bytes_passo(s: Seq<char>, j: int)
    requires
        0 <= j < s.len(),
    ensures
        bytes_utf8(s.subrange(0, j + 1)) == bytes_utf8(s.subrange(0, j)) + largura_utf8(s[j]),
{
    assert(s.subrange(0, j + 1).drop_last() =~= s.subrange(0, j));
}

/// The score of `q` against `nome` (both already lowercase).
pub fn pontuar(nome: &Vec<char>, q: &Vec<char>) -> (r: Option<u128>)
    ensures
        match r {
            Some(x) => pontuacao(nome@, q@) == Some(x as nat),
            None => pontuacao(nome@, q@) is None,
        },
{
    let mut pos: usize = 0;
    let mut bytes: u128 = 0;
    let mut k: usize = 0;
    assert(q@.subrange(0, q@.len() as int) =~= q@);
    assert(nome@.subrange(0, 0) =~= Seq::<char>::empty());
    while k < q.len()
        invariant
            k <= q.len(),
            pos <= nome.len(),
            casar_de(nome@, q@, 0) == casar_de(nome@, q@.subrange(k as int, q@.len() as int), pos as int),
            bytes == bytes_utf8(nome@.subrange(0, pos as int)),
            bytes <= 4 * pos,
        decreases q.len() - k,
    {
        let c = q[k];
        let ghost sub = q@.subrange(k as int, q@.len() as int);
        assert(sub[0] == c);
        assert(sub.drop_first() =~= q@.subrange(k + 1, q@.len() as int));
        let mut j: usize = pos;
        let mut bj: u128 = bytes;
        proof {
            lemma_proxima(nome@, c, pos as int);
        }
        while j < nome.len() && nome[j] != c
            invariant
                pos <= j <= nome.len(),
                proxima(nome@, c, pos as int) == proxima(nome@, c, j as int),
                bj == bytes_utf8(nome@.subrange(0, j as int)),
                bj <= 4 * j,
            decreases nome.len() - j,
        {
            proof {
                lemma_bytes_passo(nome@, j as int);
            }
            let w = largura_utf8_exec(nome[j]);
            bj = bj + w as u128;
            j = j + 1;
        }
        if j >= nome.len() {
            return None;
        }
        proof {
            lemma_bytes_passo(nome@, j as int);
        }
        let w = largura_utf8_exec(nome[j]);
        bytes = bj + w as u128;
        pos = j + 1;
        k = k + 1;
    }
    Some(bytes)
}

/// The matches of a query among entries, in entry order, each with its score.
pub open spec fn candidatos(apps: Seq<VistaApp>, q: Seq<char>) -> Seq<(VistaApp, nat)>
    decreases apps.len(),
{
    if apps.len() == 0 {
        seq![]
    } else {
        let ant = candidatos(apps.drop_last(), q);
        let a = apps.last();
        match pontuacao(minusculas(a.0), q) {
            Some(s) => ant.push((a, s)),
            None => ant,
        }
    }
}

/// The sorting keys of matches: starts (more first), then score (lower first).
pub open spec fn chaves_busca(cs: Seq<(VistaApp, nat)>) -> Seq<(u32, Seq<char>, int)> {
    cs.map_values(|c: (VistaApp, nat)| (c.0.2, Seq::<char>::empty(), c.1 as int))
}

/// The entries of the matches.
pub open spec fn entradas_de(cs: Seq<(VistaApp, nat)>) -> Seq<VistaApp> {
    cs.map_values(|c: (VistaApp, nat)| c.0)
}

/// `res` is the central column for the query `busca` over `apps`: every
/// entry when the query is empty, else the matches of its lowercase form
/// sorted stably by starts (most first) then score (lowest first).
pub open spec fn resultado_busca(apps: Seq<VistaApp>, busca: Seq<char>, res: Seq<VistaApp>) -> bool {
    let q = minusculas(busca);
    &&& q.len() == 0 ==> res == apps
    &&& q.len() > 0 ==> reordenado(entradas_de(candidatos(apps, q)), chaves_busca(candidatos(apps, q)), res)
}

/// The central column for a query. With an empty query, every entry in the
/// given order. Otherwise the entries whose lowercase name holds the
/// lowercase query as a subsequence (`casar_de`), sorted stably by starts,
/// most first, then by score, lowest first.
pub fn filtrar_apps(apps: &[AppLauncher], busca: &str) -> (r: Vec<AppLauncher>)
    ensures
        resultado_busca(vistas_apps(apps@), busca@, vistas_apps(r@)),
        busca@.len() == 0 ==> vistas_apps(r@) == vistas_apps(apps@),
{
    let q = minusculas_de(busca);
    if busca.is_empty() {
        return copiar_lista(apps);
    }
    let ghost cands = candidatos(vistas_apps(apps@), q@);
    let mut itens: Vec<AppLauncher> = Vec::new();
    let mut ks: Vec<ChaveOrdem> = Vec::new();
    let mut i: usize = 0;
    while i < apps.len()
        invariant
            i <= apps.len(),
            q@ == minusculas(busca@),
            vistas_apps(itens@) == entradas_de(candidatos(vistas_apps(apps@).subrange(0, i as int), q@)),
            vistas_chaves(ks@) == chaves_busca(candidatos(vistas_apps(apps@).subrange(0, i as int), q@)),
        decreases apps.len() - i,
    {
        let ghost pre = vistas_apps(apps@).subrange(0, i as int);
        let ghost pos = vistas_apps(apps@).subrange(0, i + 1);
        assert(pos.drop_last() =~= pre);
        assert(pos.last() == apps@[i as int]@);
        let nome = minusculas_de(apps[i].nome.as_str());
        match pontuar(&nome, &q) {
            Some(sc) => {
                let ghost ai = vistas_apps(itens@);
                let ghost ak = vistas_chaves(ks@);
                let k = ChaveOrdem { uso: apps[i].invocacoes, texto: Vec::new(), extra: sc };
                assert(k.texto@ =~= Seq::<char>::empty());
                itens.push(apps[i].duplicar());
                ks.push(k);
                assert(vistas_apps(itens@) =~= ai.push(apps@[i as int]@));
                assert(vistas_chaves(ks@) =~= ak.push(k@));
                assert(entradas_de(candidatos(pos, q@)) =~= entradas_de(candidatos(pre, q@)).push(apps@[i as int]@));
                assert(chaves_busca(candidatos(pos, q@)) =~= chaves_busca(candidatos(pre, q@)).push(k@));
            },
            None => {},
        }
        i = i + 1;
    }
    assert(vistas_apps(apps@).subrange(0, i as int) =~= vistas_apps(apps@));
    let p = ordem_estavel_de(&ks);
    let r = aplicar_ordem(&itens, &p);
    assert(ordem_estavel(chaves_busca(cands), p@) && permutado(entradas_de(cands), p@, vistas_apps(r@)));
    r
}

/// The central column depends on the query only through its lowercase
/// form: queries with the same lowercase form give the same column.
pub proof fn lei_busca_sem_caixa(apps: Seq<VistaApp>, b1: Seq<char>, b2: Seq<char>, r1: Seq<VistaApp>, r2: Seq<VistaApp>)
    requires
        minusculas(b1) == minusculas(b2),
        resultado_busca(apps, b1, r1),
        resultado_busca(apps, b2, r2),
    ensures
        r1 == r2,
{
    let q = minusculas(b1);
    if q.len() > 0 {
        lei_reordenado_unico(entradas_de(candidatos(apps, q)), chaves_busca(candidatos(apps, q)), r1, r2);
    }
}

/// In the central column of a query whose lowercase form is not empty (any
/// non-empty query), no entry has more starts
/// than an entry before it.
pub proof fn lei_busca_por_uso(apps: Seq<VistaApp>, busca: Seq<char>, r: Seq<VistaApp>)
    requires
        minusculas(busca).len() > 0,
        resultado_busca(apps, busca, r),
    ensures
        forall|i: int, j: int| 0 <= i < j < r.len() ==> #[trigger] r[i].2 >= #[trigger] r[j].2,
{
    let cs = candidatos(apps, minusculas(busca));
    let ks = chaves_busca(cs);
    let p = choose|p: Seq<usize>| #[trigger] ordem_estavel(ks, p) && permutado(entradas_de(cs), p, r);
    assert forall|i: int, j: int| 0 <= i < j < r.len() implies #[trigger] r[i].2 >= #[trigger] r[j].2 by {
        assert(crate::ordem::vem_antes(ks, p[i] as int, p[j] as int));
        assert(ks[p[i] as int].0 == cs[p[i] as int].0.2);
        assert(ks[p[j] as int].0 == cs[p[j] as int].0.2);
    }
}

proof fn lemma_subsequencia_transitiva(q1: Seq<char>, q2: Seq<char>, s: Seq<char>)
    requires
        eh_subsequencia(q1, q2),
        eh_subsequencia(q2, s),
    ensures
        eh_subsequencia(q1, s),
{
    let i1 = choose|idx: Seq<int>| #[trigger] indices_de(idx, q1, q2, 0);
    let i2 = choose|idx: Seq<int>| #[trigger] indices_de(idx, q2, s, 0);
    let idx = Seq::new(q1.len(), |k: int| i2[i1[k]]);
    assert(indices_de(idx, q1, s, 0)) by {
        assert forall|k: int| 0 <= k < idx.len() implies 0 <= #[trigger] idx[k] < s.len() && s[idx[k]] == q1[k] by {
            assert(0 <= i1[k] < q2.len());
            assert(q2[i1[k]] == q1[k]);
        }
        assert forall|a: int, b: int| 0 <= a < b < idx.len() implies #[trigger] idx[a] < #[trigger] idx[b] by {
            assert(i1[a] < i1[b]);
            assert(0 <= i1[a] && i1[b] < q2.len());
        }
    }
}

proof fn lemma_candidatos_refinados(apps: Seq<VistaApp>, q1: Seq<char>, q2: Seq<char>)
    requires
        eh_subsequencia(q1, q2),
    ensures
        forall|x: VistaApp| #[trigger] entradas_de(candidatos(apps, q2)).to_multiset().count(x)
            <= entradas_de(candidatos(apps, q1)).to_multiset().count(x),
    decreases apps.len(),
{
    broadcast use vstd::multiset::group_multiset_axioms;

    if apps.len() == 0 {
        assert(entradas_de(candidatos(apps, q2)) =~= Seq::<VistaApp>::empty());
        assert(entradas_de(candidatos(apps, q1)) =~= Seq::<VistaApp>::empty());
        vstd::seq_lib::to_multiset_len(Seq::<VistaApp>::empty());
    } else {
        let ant = apps.drop_last();
        let a = apps.last();
        let nome = minusculas(a.0);
        lemma_candidatos_refinados(ant, q1, q2);
        let e1 = entradas_de(candidatos(ant, q1));
        let e2 = entradas_de(candidatos(ant, q2));
        lei_casamento_subsequencia(nome, q1);
        lei_casamento_subsequencia(nome, q2);
        if casar_de(nome, q2, 0) is Some {
            lemma_subsequencia_transitiva(q1, q2, nome);
        }
        match pontuacao(nome, q1) {
            Some(s1) => {
                assert(entradas_de(candidatos(apps, q1)) =~= e1.push(a));
                vstd::seq_lib::to_multiset_build(e1, a);
            },
            None => {},
        }
        match pontuacao(nome, q2) {
            Some(s2) => {
                assert(entradas_de(candidatos(apps, q2)) =~= e2.push(a));
                vstd::seq_lib::to_multiset_build(e2, a);
            },
            None => {},
        }
    }
}

proof fn lemma_candidatos_sem_consulta(apps: Seq<VistaApp>)
    ensures
        entradas_de(candidatos(apps, Seq::<char>::empty())) == apps,
    decreases apps.len(),
{
    if apps.len() > 0 {
        lemma_candidatos_sem_consulta(apps.drop_last());
        let e = entradas_de(candidatos(apps.drop_last(), Seq::<char>::empty()));
        assert(entradas_de(candidatos(apps, Seq::<char>::empty())) =~= e.push(apps.last()));
        assert(apps =~= apps.drop_last().push(apps.last()));
    } else {
        assert(entradas_de(candidatos(apps, Seq::<char>::empty())) =~= apps);
    }
}

proof fn lemma_resultado_multiset(apps: Seq<VistaApp>, busca: Seq<char>, r: Seq<VistaApp>)
    requires
        resultado_busca(apps, busca, r),
    ensures
        r.to_multiset() == entradas_de(candidatos(apps, minusculas(busca))).to_multiset(),
{
    let q = minusculas(busca);
    if q.len() == 0 {
        assert(q =~= Seq::<char>::empty());
        lemma_candidatos_sem_consulta(apps);
    } else {
        lei_reordenado_multiset(entradas_de(candidatos(apps, q)), chaves_busca(candidatos(apps, q)), r);
    }
}

/// Refining the query never brings in an entry: when the lowercase form of
/// `b1` is a subsequence of that of `b2` (for instance `b2` is `b1` with more
/// characters typed after it), every entry is shown for `b2` at most as many
/// times as for `b1`.
pub proof fn lei_busca_refinada(apps: Seq<VistaApp>, b1: Seq<char>, b2: Seq<char>, r1: Seq<VistaApp>, r2: Seq<VistaApp>)
    requires
        eh_subsequencia(minusculas(b1), minusculas(b2)),
        resultado_busca(apps, b1, r1),
        resultado_busca(apps, b2, r2),
    ensures
        forall|x: VistaApp| #[trigger] r2.to_multiset().count(x) <= r1.to_multiset().count(x),
{
    lemma_resultado_multiset(apps, b1, r1);
    lemma_resultado_multiset(apps, b2, r2);
    lemma_candidatos_refinados(apps, minusculas(b1), minusculas(b2));
}

proof fn lemma_candidatos_pontuados(apps: Seq<VistaApp>, q: Seq<char>)
    ensures
        forall|k: int| 0 <= k < candidatos(apps, q).len() ==>
            pontuacao(minusculas(#[trigger] candidatos(apps, q)[k].0.0), q) == Some(candidatos(apps, q)[k].1),
    decreases apps.len(),
{
    if apps.len() > 0 {
        lemma_candidatos_pontuados(apps.drop_last(), q);
    }
}

/// In the column of a non-empty query every entry matches, and among
/// entries with equally many starts the one whose match ends at a smaller
/// byte offset of its lowercase name comes first (numeric order of the
/// score).
pub proof fn lei_busca_desempate(apps: Seq<VistaApp>, busca: Seq<char>, r: Seq<VistaApp>)
    requires
        minusculas(busca).len() > 0,
        resultado_busca(apps, busca, r),
    ensures
        forall|i: int| 0 <= i < r.len() ==> #[trigger] pontuacao(minusculas(r[i].0), minusculas(busca)) is Some,
        forall|i: int, j: int| 0 <= i < j < r.len() && r[i].2 == r[j].2 ==>
            #[trigger] pontuacao(minusculas(r[i].0), minusculas(busca))->0 <= #[trigger] pontuacao(
                minusculas(r[j].0),
                minusculas(busca),
            )->0,
{
    let q = minusculas(busca);
    let cs = candidatos(apps, q);
    let ks = chaves_busca(cs);
    lemma_candidatos_pontuados(apps, q);
    let p = choose|p: Seq<usize>| #[trigger] ordem_estavel(ks, p) && permutado(entradas_de(cs), p, r);
    assert forall|i: int| 0 <= i < r.len() implies #[trigger] pontuacao(minusculas(r[i].0), q) is Some by {
        assert(r[i] == cs[p[i] as int].0);
    }
    assert forall|i: int, j: int| 0 <= i < j < r.len() && r[i].2 == r[j].2 implies
        #[trigger] pontuacao(minusculas(r[i].0), q)->0 <= #[trigger] pontuacao(minusculas(r[j].0), q)->0 by {
        let a = p[i] as int;
        let b = p[j] as int;
        assert(r[i] == cs[a].0 && r[j] == cs[b].0);
        assert(crate::ordem::vem_antes(ks, a, b));
        assert(ks[a] == (cs[a].0.2, Seq::<char>::empty(), cs[a].1 as int));
        assert(ks[b] == (cs[b].0.2, Seq::<char>::empty(), cs[b].1 as int));
        crate::texto::lemma_lex_irreflexivo(Seq::<char>::empty(), 0);
    }
}

proof fn lemma_casar_no_prefixo(nome: Seq<char>, q: Seq<char>, pos: int)
    requires
        0 <= pos <= nome.len(),
        casar_de(nome, q, pos) is Some,
    ensures
        pos <= casar_de(nome, q, pos)->0 <= nome.len(),
        subsequencia_desde(q, nome.subrange(0, casar_de(nome, q, pos)->0), pos),
    decreases q.len(),
{
    let f = casar_de(nome, q, pos)->0;
    if q.len() == 0 {
        assert(indices_de(Seq::<int>::empty(), q, nome.subrange(0, f), pos));
    } else {
        lemma_proxima(nome, q[0], pos);
        let j = proxima(nome, q[0], pos);
        lemma_casar_no_prefixo(nome, q.drop_first(), j + 1);
        let pre = nome.subrange(0, f);
        let resto = choose|idx: Seq<int>| #[trigger] indices_de(idx, q.drop_first(), pre, j + 1);
        let idx = seq![j].add(resto);
        assert(indices_de(idx, q, pre, pos)) by {
            assert forall|i: int| 0 <= i < idx.len() implies pos <= #[trigger] idx[i] < pre.len() && pre[idx[i]] == q[i] by {
                if i > 0 {
                    assert(idx[i] == resto[i - 1]);
                    assert(q[i] == q.drop_first()[i - 1]);
                }
            }
            assert forall|a: int, b: int| 0 <= a < b < idx.len() implies #[trigger] idx[a] < #[trigger] idx[b] by {
                assert(idx[b] == resto[b - 1]);
                if a > 0 {
                    assert(idx[a] == resto[a - 1]);
                }
            }
        }
    }
}

proof fn lemma_bytes_crescente(s: Seq<char>, f1: int, f2: int)
    requires
        0 <= f1 < f2 <= s.len(),
    ensures
        bytes_utf8(s.subrange(0, f1)) < bytes_utf8(s.subrange(0, f2)),
    decreases f2 - f1,
{
    lemma_bytes_passo(s, f2 - 1);
    if f1 < f2 - 1 {
        lemma_bytes_crescente(s, f1, f2 - 1);
    }
}

/// The score of a name for a query: the query matches exactly when it is a
/// subsequence of the name, and then its score is the UTF-8 length of the
/// shortest prefix of the name that holds the query as a subsequence: a
/// prefix holds it exactly when its byte length reaches the score.
pub proof fn lei_pontuacao(nome: Seq<char>, q: Seq<char>)
    ensures
        pontuacao(nome, q) is Some <==> eh_subsequencia(q, nome),
        pontuacao(nome, q) is Some ==> forall|f: int| 0 <= f <= nome.len() ==>
            (#[trigger] eh_subsequencia(q, nome.subrange(0, f)) <==> bytes_utf8(nome.subrange(0, f))
                >= pontuacao(nome, q)->0),
{
    lei_casamento_subsequencia(nome, q);
    if casar_de(nome, q, 0) is Some {
        let f0 = casar_de(nome, q, 0)->0;
        lemma_casar_no_prefixo(nome, q, 0);
        let emb = choose|idx: Seq<int>| #[trigger] indices_de(idx, q, nome.subrange(0, f0), 0);
        assert forall|f: int| 0 <= f <= nome.len() implies
            (#[trigger] eh_subsequencia(q, nome.subrange(0, f)) <==> bytes_utf8(nome.subrange(0, f))
                >= bytes_utf8(nome.subrange(0, f0))) by {
            if f >= f0 {
                if f > f0 {
                    lemma_bytes_crescente(nome, f0, f);
                }
                assert(indices_de(emb, q, nome.subrange(0, f), 0)) by {
                    assert forall|i: int| 0 <= i < emb.len() implies 0 <= #[trigger] emb[i] < nome.subrange(0, f).len()
                        && nome.subrange(0, f)[emb[i]] == q[i] by {
                        assert(nome.subrange(0, f0)[emb[i]] == nome[emb[i]]);
                    }
                }
            } else {
                lemma_bytes_crescente(nome, f, f0);
                if eh_subsequencia(q, nome.subrange(0, f)) {
                    let idx = choose|idx: Seq<int>| #[trigger] indices_de(idx, q, nome.subrange(0, f), 0);
                    assert(indices_de(idx, q, nome, 0)) by {
                        assert forall|i: int| 0 <= i < idx.len() implies 0 <= #[trigger] idx[i] < nome.len()
                            && nome[idx[i]] == q[i] by {
                            assert(nome.subrange(0, f)[idx[i]] == nome[idx[i]]);
                        }
                    }
                    if q.len() > 0 {
                        lei_casamento_mais_cedo(nome, q, idx);
                        assert(idx.last() < f);
                    } else {
                        assert(f0 == 0);
                    }
                }
            }
        }
    }
}

proof fn lemma_candidatos_membros(apps: Seq<VistaApp>, q: Seq<char>, x: VistaApp)
    ensures
        entradas_de(candidatos(apps, q)).to_multiset().count(x) == (if eh_subsequencia(q, minusculas(x.0)) {
            apps.to_multiset().count(x)
        } else {
            0
        }),
    decreases apps.len(),
{
    broadcast use vstd::multiset::group_multiset_axioms;

    if apps.len() == 0 {
        assert(entradas_de(candidatos(apps, q)) =~= Seq::<VistaApp>::empty());
        vstd::seq_lib::to_multiset_len(Seq::<VistaApp>::empty());
        vstd::seq_lib::to_multiset_len(apps);
    } else {
        let ant = apps.drop_last();
        let a = apps.last();
        lemma_candidatos_membros(ant, q, x);
        assert(apps =~= ant.push(a));
        vstd::seq_lib::to_multiset_build(ant, a);
        let e = entradas_de(candidatos(ant, q));
        lei_casamento_subsequencia(minusculas(a.0), q);
        match pontuacao(minusculas(a.0), q) {
            Some(s) => {
                assert(entradas_de(candidatos(apps, q)) =~= e.push(a));
                vstd::seq_lib::to_multiset_build(e, a);
            },
            None => {},
        }
    }
}

/// The column of a non-empty query holds exactly the entries whose
/// lowercase name holds the lowercase query as a subsequence, each as many
/// times as in the catalogue.
pub proof fn lei_busca_membros(apps: Seq<VistaApp>, busca: Seq<char>, r: Seq<VistaApp>)
    requires
        minusculas(busca).len() > 0,
        resultado_busca(apps, busca, r),
    ensures
        forall|x: VistaApp| #[trigger] r.to_multiset().count(x) == (if eh_subsequencia(minusculas(busca), minusculas(x.0)) {
            apps.to_multiset().count(x)
        } else {
            0
        }),
{
    lemma_resultado_multiset(apps, busca, r);
    assert forall|x: VistaApp| #[trigger] r.to_multiset().count(x) == (if eh_subsequencia(minusculas(busca), minusculas(x.0)) {
        apps.to_multiset().count(x)
    } else {
        0
    }) by {
        lemma_candidatos_membros(apps, minusculas(busca), x);
    }
}

/// Catalogue positions of the matches of `q`, in catalogue order.
spec fn posicoes_candidatos(apps: Seq<VistaApp>, q: Seq<char>) -> Seq<int>
    decreases apps.len(),
{
    if apps.len() == 0 {
        seq![]
    } else {
        let ant = posicoes_candidatos(apps.drop_last(), q);
        match pontuacao(minusculas(apps.last().0), q) {
            Some(s) => ant.push(apps.len() - 1),
            None => ant,
        }
    }
}

proof fn lemma_posicoes_candidatos(apps: Seq<VistaApp>, q: Seq<char>)
    ensures
        posicoes_candidatos(apps, q).len() == candidatos(apps, q).len(),
        forall|k: int| 0 <= k < posicoes_candidatos(apps, q).len() ==>
            0 <= #[trigger] posicoes_candidatos(apps, q)[k] < apps.len()
            && apps[posicoes_candidatos(apps, q)[k]] == candidatos(apps, q)[k].0,
        forall|a: int, b: int| 0 <= a < b < posicoes_candidatos(apps, q).len() ==>
            #[trigger] posicoes_candidatos(apps, q)[a] < #[trigger] posicoes_candidatos(apps, q)[b],
    decreases apps.len(),
{
    if apps.len() > 0 {
        let ant = apps.drop_last();
        lemma_posicoes_candidatos(ant, q);
        let pa = posicoes_candidatos(ant, q);
        assert forall|k: int| 0 <= k < pa.len() implies apps[#[trigger] pa[k]] == ant[pa[k]] by {}
    }
}

/// Entries of the column of a non-empty query with as many starts and the
/// same score keep the order they have in the catalogue: each entry of the
/// column is taken from its own catalogue position, and of two such tied
/// entries the earlier one in the column comes from the earlier position.
pub proof fn lei_busca_estavel(apps: Seq<VistaApp>, busca: Seq<char>, r: Seq<VistaApp>)
    requires
        minusculas(busca).len() > 0,
        resultado_busca(apps, busca, r),
    ensures
        exists|pos: Seq<int>| {
            &&& pos.len() == r.len()
            &&& forall|i: int| 0 <= i < r.len() ==> 0 <= #[trigger] pos[i] < apps.len() && apps[pos[i]] == r[i]
            &&& forall|i: int, j: int| 0 <= i < j < r.len() ==> #[trigger] pos[i] != #[trigger] pos[j]
            &&& forall|i: int, j: int| 0 <= i < j < r.len() && r[i].2 == r[j].2
                && pontuacao(minusculas(r[i].0), minusculas(busca)) == pontuacao(minusculas(r[j].0), minusculas(busca))
                ==> #[trigger] pos[i] < #[trigger] pos[j]
        },
{
    let q = minusculas(busca);
    let cs = candidatos(apps, q);
    let ks = chaves_busca(cs);
    lemma_candidatos_pontuados(apps, q);
    lemma_posicoes_candidatos(apps, q);
    let pc = posicoes_candidatos(apps, q);
    let p = choose|p: Seq<usize>| #[trigger] ordem_estavel(ks, p) && permutado(entradas_de(cs), p, r);
    let pos = Seq::new(r.len(), |i: int| pc[p[i] as int]);
    assert forall|i: int| 0 <= i < r.len() implies 0 <= #[trigger] pos[i] < apps.len() && apps[pos[i]] == r[i] by {
        assert(r[i] == cs[p[i] as int].0);
    }
    assert forall|i: int, j: int| 0 <= i < j < r.len() implies #[trigger] pos[i] != #[trigger] pos[j] by {
        crate::ordem::lei_ordem_estavel_injetiva(ks, p, i, j);
        let a = p[i] as int;
        let b = p[j] as int;
        if a < b {
            assert(pc[a] < pc[b]);
        } else {
            assert(pc[b] < pc[a]);
        }
    }
    assert forall|i: int, j: int| 0 <= i < j < r.len() && r[i].2 == r[j].2
        && pontuacao(minusculas(r[i].0), q) == pontuacao(minusculas(r[j].0), q)
        implies #[trigger] pos[i] < #[trigger] pos[j] by {
        let a = p[i] as int;
        let b = p[j] as int;
        assert(r[i] == cs[a].0 && r[j] == cs[b].0);
        assert(crate::ordem::vem_antes(ks, a, b));
        assert(ks[a] == (cs[a].0.2, Seq::<char>::empty(), cs[a].1 as int));
        assert(ks[b] == (cs[b].0.2, Seq::<char>::empty(), cs[b].1 as int));
        crate::texto::lemma_lex_irreflexivo(Seq::<char>::empty(), 0);
        assert(ks[a] == ks[b]);
        assert(a < b);
        assert(pc[a] < pc[b]);
    }
    assert(pos.len() == r.len());
}

} // verus!
