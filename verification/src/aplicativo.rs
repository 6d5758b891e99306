//! Launcher entries: how a `.desktop` file becomes an entry, and the two
//! orders the catalogue is kept in (by name, and by usage then name).

use vstd::prelude::*;
use crate::texto::{
    minusculas, minusculas_de, caracteres, texto_de, linhas, linhas_do_texto, vistas, comeca_com,
    substituir, substituir_exec, primeira_palavra, palavras_exec, ocorre_exec, lex_menor, lemma_lex_irreflexivo,
    lemma_lex_transitivo, sem_ocorrencia, lemma_substituir_no_inicio, lemma_substituir_sem_ocorrencia,
};
use crate::ordem::{ChaveOrdem, vistas_chaves, ordem_estavel, ordem_estavel_de, reordenado, permutado, vem_antes};

verus! {

/// An application the launcher can start: its display name, the program
/// it runs and how many times it was started.
#[derive(Clone, Debug)]
pub struct AppLauncher {
    pub nome: String,
    pub executavel: String,
    pub invocacoes: u32,
}

impl AppLauncher {
    /// A copy of the entry.
    pub fn duplicar(&self) -> (r: AppLauncher)
        ensures
            r == *self,
    {
        AppLauncher { nome: self.nome.clone(), executavel: self.executavel.clone(), invocacoes: self.invocacoes }
    }
}

/// An entry as values: name, program, number of starts.
pub type VistaApp = (Seq<char>, Seq<char>, u32);

impl View for AppLauncher {
    type V = VistaApp;

    open spec fn view(&self) -> VistaApp {
        (self.nome@, self.executavel@, self.invocacoes)
    }
}

/// The entries of a list, as values.
pub open spec fn vistas_apps(apps: Seq<AppLauncher>) -> Seq<VistaApp> {
    apps.map_values(|a: AppLauncher| a@)
}

/// Sorting key of the catalogue order: the lowercase name.
pub open spec fn chave_nome(a: VistaApp) -> (u32, Seq<char>, int) {
    (0u32, minusculas(a.0), 0int)
}

/// Sorting key of the usage order: most started first, then lowercase name.
pub open spec fn chave_uso(a: VistaApp) -> (u32, Seq<char>, int) {
    (a.2, minusculas(a.0), 0int)
}

pub open spec fn chaves_nome(apps: Seq<VistaApp>) -> Seq<(u32, Seq<char>, int)> {
    apps.map_values(|a: VistaApp| chave_nome(a))
}

pub open spec fn chaves_uso(apps: Seq<VistaApp>) -> Seq<(u32, Seq<char>, int)> {
    apps.map_values(|a: VistaApp| chave_uso(a))
}

/// A copy of a list of entries.
pub fn copiar_lista(lista: &[AppLauncher]) -> (r: Vec<AppLauncher>)
    ensures
        vistas_apps(r@) == vistas_apps(lista@),
{
    let mut r: Vec<AppLauncher> = Vec::new();
    let mut i: usize = 0;
    while i < lista.len()
        invariant
            i <= lista.len(),
            vistas_apps(r@) == vistas_apps(lista@).subrange(0, i as int),
        decreases lista.len() - i,
    {
        let ghost antes = vistas_apps(r@);
        r.push(lista[i].duplicar());
        assert(vistas_apps(r@) =~= antes.push(lista@[i as int]@));
        assert(vistas_apps(lista@).subrange(0, i + 1) =~= vistas_apps(lista@).subrange(0, i as int).push(lista@[i as int]@));
        i = i + 1;
    }
    assert(vistas_apps(lista@).subrange(0, i as int) =~= vistas_apps(lista@));
    r
}

/// The entries at the given positions, in that order.
pub fn aplicar_ordem(apps: &Vec<AppLauncher>, p: &Vec<usize>) -> (r: Vec<AppLauncher>)
    requires
        forall|i: int| 0 <= i < p.len() ==> #[trigger] p@[i] < apps.len(),
    ensures
        permutado(apps@, p@, r@),
        permutado(vistas_apps(apps@), p@, vistas_apps(r@)),
{
    let mut r: Vec<AppLauncher> = Vec::new();
    let mut i: usize = 0;
    while i < p.len()
        invariant
            i <= p.len(),
            forall|x: int| 0 <= x < p.len() ==> #[trigger] p@[x] < apps.len(),
            r.len() == i,
            forall|x: int| 0 <= x < i ==> #[trigger] r@[x] == apps@[p@[x] as int],
        decreases p.len() - i,
    {
        r.push(apps[p[i]].duplicar());
        i = i + 1;
    }
    assert(permutado(vistas_apps(apps@), p@, vistas_apps(r@)));
    r
}

/// The catalogue sorted by lowercase name; entries whose lowercase names
/// are equal keep their order.
pub fn ordenar_por_nome(apps: &Vec<AppLauncher>) -> (r: Vec<AppLauncher>)
    ensures
        reordenado(vistas_apps(apps@), chaves_nome(vistas_apps(apps@)), vistas_apps(r@)),
{
    let mut ks: Vec<ChaveOrdem> = Vec::new();
    let mut i: usize = 0;
    while i < apps.len()
        invariant
            i <= apps.len(),
            vistas_chaves(ks@) == chaves_nome(vistas_apps(apps@)).subrange(0, i as int),
        decreases apps.len() - i,
    {
        let texto = minusculas_de(apps[i].nome.as_str());
        let ghost antes = vistas_chaves(ks@);
        let k = ChaveOrdem { uso: 0, texto, extra: 0 };
        assert(k@ == chave_nome(apps@[i as int]@));
        ks.push(k);
        assert(vistas_chaves(ks@) =~= antes.push(k@));
        assert(chaves_nome(vistas_apps(apps@)).subrange(0, i + 1) =~= chaves_nome(vistas_apps(apps@)).subrange(0, i as int).push(chave_nome(apps@[i as int]@)));
        i = i + 1;
    }
    assert(chaves_nome(vistas_apps(apps@)).subrange(0, i as int) =~= chaves_nome(vistas_apps(apps@)));
    let p = ordem_estavel_de(&ks);
    let r = aplicar_ordem(apps, &p);
    assert(ordem_estavel(chaves_nome(vistas_apps(apps@)), p@) && permutado(vistas_apps(apps@), p@, vistas_apps(r@)));
    r
}

/// The catalogue sorted by usage, most started first, and by lowercase name
/// among equally used entries; entries equal in both keep their order.
pub fn ordenar_por_uso(apps: &Vec<AppLauncher>) -> (r: Vec<AppLauncher>)
    ensures
        reordenado(vistas_apps(apps@), chaves_uso(vistas_apps(apps@)), vistas_apps(r@)),
{
    let mut ks: Vec<ChaveOrdem> = Vec::new();
    let mut i: usize = 0;
    while i < apps.len()
        invariant
            i <= apps.len(),
            vistas_chaves(ks@) == chaves_uso(vistas_apps(apps@)).subrange(0, i as int),
        decreases apps.len() - i,
    {
        let texto = minusculas_de(apps[i].nome.as_str());
        let ghost antes = vistas_chaves(ks@);
        let k = ChaveOrdem { uso: apps[i].invocacoes, texto, extra: 0 };
        assert(k@ == chave_uso(apps@[i as int]@));
        ks.push(k);
        assert(vistas_chaves(ks@) =~= antes.push(k@));
        assert(chaves_uso(vistas_apps(apps@)).subrange(0, i + 1) =~= chaves_uso(vistas_apps(apps@)).subrange(0, i as int).push(chave_uso(apps@[i as int]@)));
        i = i + 1;
    }
    assert(chaves_uso(vistas_apps(apps@)).subrange(0, i as int) =~= chaves_uso(vistas_apps(apps@)));
    let p = ordem_estavel_de(&ks);
    let r = aplicar_ordem(apps, &p);
    assert(ordem_estavel(chaves_uso(vistas_apps(apps@)), p@) && permutado(vistas_apps(apps@), p@, vistas_apps(r@)));
    r
}

/// `"Name="`, the key of the display name in a `.desktop` file.
pub open spec fn chave_name() -> Seq<char> {
    seq!['N', 'a', 'm', 'e', '=']
}

/// `"Exec="`, the key of the command line in a `.desktop` file.
pub open spec fn chave_exec() -> Seq<char> {
    seq!['E', 'x', 'e', 'c', '=']
}

/// The name and program read from the given lines: the first `Name=` line
/// that gives a non-empty name (every `"Name="` in it removed), and the
/// first word after removing every `"Exec="` from the first `Exec=` line
/// that gives a non-empty one.
pub open spec fn campos_desktop(ls: Seq<Seq<char>>) -> (Seq<char>, Seq<char>)
    decreases ls.len(),
{
    if ls.len() == 0 {
        (seq![], seq![])
    } else {
        let ant = campos_desktop(ls.drop_last());
        let l = ls.last();
        let nome = if comeca_com(l, chave_name()) && ant.0.len() == 0 {
            substituir(l, chave_name(), seq![])
        } else {
            ant.0
        };
        let programa = if comeca_com(l, chave_exec()) && ant.1.len() == 0 {
            primeira_palavra(substituir(l, chave_exec(), seq![]))
        } else {
            ant.1
        };
        (nome, programa)
    }
}

/// The entry a `.desktop` file describes: its name and program, when both
/// are present and non-empty.
pub open spec fn entrada_desktop(conteudo: Seq<char>) -> Option<(Seq<char>, Seq<char>)> {
    let c = campos_desktop(linhas(conteudo));
    if c.0.len() > 0 && c.1.len() > 0 {
        Some(c)
    } else {
        None
    }
}

/// Reads one `.desktop` file: an entry with no starts, or `None` when the
/// file names no program or no display name.
pub fn analisar_desktop(conteudo: &str) -> (r: Option<AppLauncher>)
    ensures
        match r {
            Some(a) => entrada_desktop(conteudo@) == Some((a.nome@, a.executavel@)) && a.invocacoes == 0,
            None => entrada_desktop(conteudo@) is None,
        },
{
    let cs = caracteres(conteudo);
    let ls = linhas_do_texto(&cs);
    let chave_n: Vec<char> = vec!['N', 'a', 'm', 'e', '='];
    let chave_e: Vec<char> = vec!['E', 'x', 'e', 'c', '='];
    let vazio: Vec<char> = Vec::new();
    assert(chave_n@ =~= chave_name());
    assert(chave_e@ =~= chave_exec());
    assert(vazio@ =~= Seq::<char>::empty());
    let mut nome: Vec<char> = Vec::new();
    let mut programa: Vec<char> = Vec::new();
    let mut i: usize = 0;
    while i < ls.len()
        invariant
            i <= ls.len(),
            chave_n@ == chave_name(),
            chave_e@ == chave_exec(),
            vazio@ == Seq::<char>::empty(),
            (nome@, programa@) == campos_desktop(vistas(ls@).subrange(0, i as int)),
        decreases ls.len() - i,
    {
        let ghost pre = vistas(ls@).subrange(0, i as int);
        let ghost pos = vistas(ls@).subrange(0, i + 1);
        assert(pos.drop_last() =~= pre);
        assert(pos.last() == ls@[i as int]@);
        let l = &ls[i];
        let tem_n = ocorre_exec(l, &chave_n, 0);
        assert(tem_n == comeca_com(l@, chave_name()));
        if tem_n && nome.len() == 0 {
            nome = substituir_exec(l, &chave_n, &vazio);
        }
        let tem_e = ocorre_exec(l, &chave_e, 0);
        assert(tem_e == comeca_com(l@, chave_exec()));
        if tem_e && programa.len() == 0 {
            let resto = substituir_exec(l, &chave_e, &vazio);
            let ps = palavras_exec(&resto);
            if ps.len() > 0 {
                programa = ps[0].clone();
            } else {
                programa = Vec::new();
            }
            assert(programa@ =~= primeira_palavra(resto@));
        }
        i = i + 1;
    }
    assert(vistas(ls@).subrange(0, i as int) =~= vistas(ls@));
    if nome.len() > 0 && programa.len() > 0 {
        Some(AppLauncher { nome: texto_de(&nome), executavel: texto_de(&programa), invocacoes: 0 })
    } else {
        None
    }
}

/// The character sequences of a list of strings.
pub open spec fn textos(v: Seq<String>) -> Seq<Seq<char>> {
    v.map_values(|x: String| x@)
}

/// The entries that a list of `.desktop` files describe, in file order,
/// none started yet.
pub open spec fn entradas_lidas(cs: Seq<Seq<char>>) -> Seq<VistaApp>
    decreases cs.len(),
{
    if cs.len() == 0 {
        seq![]
    } else {
        let ant = entradas_lidas(cs.drop_last());
        match entrada_desktop(cs.last()) {
            Some(e) => ant.push((e.0, e.1, 0u32)),
            None => ant,
        }
    }
}

/// The catalogue built from the contents of the `.desktop` files found:
/// every file that names a program and a display name gives an entry, and
/// the entries are sorted by lowercase name.
pub fn montar_catalogo(conteudos: &Vec<String>) -> (r: Vec<AppLauncher>)
    ensures
        reordenado(
            entradas_lidas(textos(conteudos@)),
            chaves_nome(entradas_lidas(textos(conteudos@))),
            vistas_apps(r@),
        ),
{
    let mut lidos: Vec<AppLauncher> = Vec::new();
    let mut i: usize = 0;
    while i < conteudos.len()
        invariant
            i <= conteudos.len(),
            vistas_apps(lidos@) == entradas_lidas(textos(conteudos@).subrange(0, i as int)),
        decreases conteudos.len() - i,
    {
        let ghost pre = textos(conteudos@).subrange(0, i as int);
        let ghost pos = textos(conteudos@).subrange(0, i + 1);
        assert(pos.drop_last() =~= pre);
        assert(pos.last() == conteudos@[i as int]@);
        let ghost antes = vistas_apps(lidos@);
        match analisar_desktop(conteudos[i].as_str()) {
            Some(a) => {
                lidos.push(a);
                assert(vistas_apps(lidos@) =~= antes.push(a@));
            },
            None => {},
        }
        i = i + 1;
    }
    assert(textos(conteudos@).subrange(0, i as int) =~= textos(conteudos@));
    ordenar_por_nome(&lidos)
}
/// After sorting by usage, no entry has more starts than an entry before
/// it, and among equally started entries the lowercase names do not go
/// backwards.
pub proof fn lei_ordem_por_uso(apps: Seq<VistaApp>, r: Seq<VistaApp>)
    requires
        reordenado(apps, chaves_uso(apps), r),
    ensures
        forall|i: int, j: int| 0 <= i < j < r.len() ==> #[trigger] r[i].2 >= #[trigger] r[j].2,
        forall|i: int, j: int| 0 <= i < j < r.len() && r[i].2 == r[j].2 ==>
            !lex_menor(minusculas(#[trigger] r[j].0), minusculas(#[trigger] r[i].0)),
{
    let ks = chaves_uso(apps);
    let p = choose|p: Seq<usize>| #[trigger] ordem_estavel(ks, p) && permutado(apps, p, r);
    assert forall|i: int, j: int| 0 <= i < j < r.len() implies #[trigger] r[i].2 >= #[trigger] r[j].2 by {
        assert(vem_antes(ks, p[i] as int, p[j] as int));
        assert(ks[p[i] as int] == chave_uso(apps[p[i] as int]));
        assert(ks[p[j] as int] == chave_uso(apps[p[j] as int]));
    }
    assert forall|i: int, j: int| 0 <= i < j < r.len() && r[i].2 == r[j].2 implies
        !lex_menor(minusculas(#[trigger] r[j].0), minusculas(#[trigger] r[i].0)) by {
        assert(vem_antes(ks, p[i] as int, p[j] as int));
        assert(ks[p[i] as int] == chave_uso(apps[p[i] as int]));
        assert(ks[p[j] as int] == chave_uso(apps[p[j] as int]));
        let a = minusculas(r[i].0);
        let b = minusculas(r[j].0);
        lemma_lex_irreflexivo(a, 0);
        if lex_menor(b, a) && lex_menor(a, b) {
            lemma_lex_transitivo(a, b, a, 0);
        }
    }
}

/// The program of a `.desktop` file comes only from lines that begin with
/// `"Exec="`: any other line (such as `"TryExec=..."`) leaves it as it was,
/// and once non-empty it never changes. Likewise the name comes only from
/// lines that begin with `"Name="`.
pub proof fn lei_desktop_campos(ls: Seq<Seq<char>>, l: Seq<char>)
    ensures
        !(l.len() >= 5 && l.subrange(0, 5) == seq!['E', 'x', 'e', 'c', '=']) ==> campos_desktop(ls.push(l)).1
            == campos_desktop(ls).1,
        campos_desktop(ls).1.len() > 0 ==> campos_desktop(ls.push(l)).1 == campos_desktop(ls).1,
        !(l.len() >= 5 && l.subrange(0, 5) == seq!['N', 'a', 'm', 'e', '=']) ==> campos_desktop(ls.push(l)).0
            == campos_desktop(ls).0,
        campos_desktop(ls).0.len() > 0 ==> campos_desktop(ls.push(l)).0 == campos_desktop(ls).0,
{
    assert(ls.push(l).drop_last() =~= ls);
}

/// What an `Exec=` or `Name=` line gives while the field is still empty:
/// after `"Exec="`, the program is the first whitespace-separated word of
/// the rest of the line; after `"Name="`, the name is the rest of the line
/// (the key not occurring again in it).
pub proof fn lei_desktop_valores(ls: Seq<Seq<char>>, resto: Seq<char>)
    ensures
        campos_desktop(ls).1.len() == 0 && sem_ocorrencia(resto, seq!['E', 'x', 'e', 'c', '='])
            ==> campos_desktop(ls.push(seq!['E', 'x', 'e', 'c', '='] + resto)).1 == primeira_palavra(resto),
        campos_desktop(ls).0.len() == 0 && sem_ocorrencia(resto, seq!['N', 'a', 'm', 'e', '='])
            ==> campos_desktop(ls.push(seq!['N', 'a', 'm', 'e', '='] + resto)).0 == resto,
{
    let le = chave_exec() + resto;
    let ln = chave_name() + resto;
    assert(ls.push(le).drop_last() =~= ls);
    assert(ls.push(ln).drop_last() =~= ls);
    assert(le.subrange(0, 5) =~= chave_exec());
    assert(ln.subrange(0, 5) =~= chave_name());
    lemma_substituir_no_inicio(chave_exec(), resto, seq![]);
    lemma_substituir_no_inicio(chave_name(), resto, seq![]);
    assert(Seq::<char>::empty() + substituir(resto, chave_exec(), seq![]) =~= substituir(resto, chave_exec(), seq![]));
    assert(Seq::<char>::empty() + substituir(resto, chave_name(), seq![]) =~= substituir(resto, chave_name(), seq![]));
    if sem_ocorrencia(resto, chave_exec()) {
        lemma_substituir_sem_ocorrencia(resto, chave_exec(), seq![]);
    }
    if sem_ocorrencia(resto, chave_name()) {
        lemma_substituir_sem_ocorrencia(resto, chave_name(), seq![]);
    }
}

/// In the catalogue order the lowercase names never go backwards, and the
/// entries are those given, each as many times.
pub proof fn lei_ordem_por_nome(apps: Seq<VistaApp>, r: Seq<VistaApp>)
    requires
        reordenado(apps, chaves_nome(apps), r),
    ensures
        forall|i: int, j: int| 0 <= i < j < r.len() ==>
            !lex_menor(minusculas(#[trigger] r[j].0), minusculas(#[trigger] r[i].0)),
        r.to_multiset() == apps.to_multiset(),
{
    let ks = chaves_nome(apps);
    let p = choose|p: Seq<usize>| #[trigger] ordem_estavel(ks, p) && permutado(apps, p, r);
    assert forall|i: int, j: int| 0 <= i < j < r.len() implies
        !lex_menor(minusculas(#[trigger] r[j].0), minusculas(#[trigger] r[i].0)) by {
        assert(vem_antes(ks, p[i] as int, p[j] as int));
        assert(ks[p[i] as int] == chave_nome(apps[p[i] as int]));
        assert(ks[p[j] as int] == chave_nome(apps[p[j] as int]));
        let a = minusculas(r[i].0);
        let b = minusculas(r[j].0);
        lemma_lex_irreflexivo(a, 0);
        if lex_menor(b, a) && lex_menor(a, b) {
            lemma_lex_transitivo(a, b, a, 0);
        }
    }
    crate::ordem::lei_reordenado_multiset(apps, ks, r);
}

} // verus!
