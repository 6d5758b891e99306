//! The left column: labels of the entries of the current directory, their
//! order, and the way back from a label to the entry's name.

use vstd::prelude::*;
use crate::texto::{
    minusculas, minusculas_de, caracteres, texto_de, substituir, substituir_exec, aparar, aparar_exec, espaco_branco,
    sem_ocorrencia, lemma_substituir_sem_ocorrencia, lemma_sem_ocorrencia_na_frente, lemma_sem_ocorrencia_atras,
    lemma_substituir_no_inicio, lemma_substituir_primeiro_fica, lemma_aparar_espaco_inicial,
};
use crate::ordem::{ChaveOrdem, vistas_chaves, ordem_estavel, ordem_estavel_de, reordenado, permutado};
use crate::aplicativo::textos;

verus! {

/// `"Ω "`, the mark of a directory.
pub open spec fn simbolo_pasta() -> Seq<char> {
    seq!['Ω', ' ']
}

/// `"Ξ "`, the mark of an application or of a file of unknown kind.
pub open spec fn simbolo_app() -> Seq<char> {
    seq!['Ξ', ' ']
}

/// `"Δ "`, the mark of the usage history.
pub open spec fn simbolo_historico() -> Seq<char> {
    seq!['Δ', ' ']
}

/// `"α "`, the mark of a known local file (image, text, audio).
pub open spec fn simbolo_arquivo() -> Seq<char> {
    seq!['α', ' ']
}

/// An entry of a directory: its name, whether it is a directory, and its
/// extension (empty when it has none).
pub struct EntradaPasta {
    pub nome: String,
    pub eh_pasta: bool,
    pub extensao: String,
}

impl View for EntradaPasta {
    type V = (Seq<char>, bool, Seq<char>);

    open spec fn view(&self) -> (Seq<char>, bool, Seq<char>) {
        (self.nome@, self.eh_pasta, self.extensao@)
    }
}

/// The extensions (lowercase) marked as known local files: images, texts
/// and audio.
pub open spec fn extensao_conhecida(e: Seq<char>) -> bool {
    ||| e == seq!['p', 'n', 'g']
    ||| e == seq!['j', 'p', 'g']
    ||| e == seq!['j', 'p', 'e', 'g']
    ||| e == seq!['g', 'i', 'f']
    ||| e == seq!['t', 'x', 't']
    ||| e == seq!['m', 'd']
    ||| e == seq!['s', 'h']
    ||| e == seq!['r', 's']
    ||| e == seq!['t', 'o', 'm', 'l']
    ||| e == seq!['m', 'p', '3']
    ||| e == seq!['w', 'a', 'v']
    ||| e == seq!['f', 'l', 'a', 'c']
    ||| e == seq!['o', 'g', 'g']
}

/// The label of an entry: `" Ω name/"` for a directory, `" α name"` for a
/// common local file (lowercase extension known), `" Ξ name"` for any other
/// file (programs and the like).
pub open spec fn rotulo(e: (Seq<char>, bool, Seq<char>)) -> Seq<char> {
    if e.1 {
        seq![' '] + simbolo_pasta() + e.0 + seq!['/']
    } else if extensao_conhecida(minusculas(e.2)) {
        seq![' '] + simbolo_arquivo() + e.0
    } else {
        seq![' '] + simbolo_app() + e.0
    }
}

fn eh_extensao_conhecida(e: &Vec<char>) -> (r: bool)
    ensures
        r == extensao_conhecida(e@),
{
    let n = e.len();
    let r = if n == 2 {
        (e[0] == 'm' && e[1] == 'd') || (e[0] == 's' && e[1] == 'h') || (e[0] == 'r' && e[1] == 's')
    } else if n == 3 {
        (e[0] == 'p' && e[1] == 'n' && e[2] == 'g') || (e[0] == 'j' && e[1] == 'p' && e[2] == 'g')
            || (e[0] == 'g' && e[1] == 'i' && e[2] == 'f') || (e[0] == 't' && e[1] == 'x' && e[2] == 't')
            || (e[0] == 'm' && e[1] == 'p' && e[2] == '3') || (e[0] == 'w' && e[1] == 'a' && e[2] == 'v')
            || (e[0] == 'o' && e[1] == 'g' && e[2] == 'g')
    } else if n == 4 {
        (e[0] == 'j' && e[1] == 'p' && e[2] == 'e' && e[3] == 'g') || (e[0] == 't' && e[1] == 'o' && e[2]
            == 'm' && e[3] == 'l') || (e[0] == 'f' && e[1] == 'l' && e[2] == 'a' && e[3] == 'c')
    } else {
        false
    };
    proof {
        if n == 2 {
            assert(e@ == seq!['m', 'd'] <==> (e@[0] == 'm' && e@[1] == 'd')) by {
                if e@[0] == 'm' && e@[1] == 'd' {
                    assert(e@ =~= seq!['m', 'd']);
                }
            }
            assert(e@ == seq!['s', 'h'] <==> (e@[0] == 's' && e@[1] == 'h')) by {
                if e@[0] == 's' && e@[1] == 'h' {
                    assert(e@ =~= seq!['s', 'h']);
                }
            }
            assert(e@ == seq!['r', 's'] <==> (e@[0] == 'r' && e@[1] == 's')) by {
                if e@[0] == 'r' && e@[1] == 's' {
                    assert(e@ =~= seq!['r', 's']);
                }
            }
        } else if n == 3 {
            lemma_tres(e@, 'p', 'n', 'g');
            lemma_tres(e@, 'j', 'p', 'g');
            lemma_tres(e@, 'g', 'i', 'f');
            lemma_tres(e@, 't', 'x', 't');
            lemma_tres(e@, 'm', 'p', '3');
            lemma_tres(e@, 'w', 'a', 'v');
            lemma_tres(e@, 'o', 'g', 'g');
        } else if n == 4 {
            lemma_quatro(e@, 'j', 'p', 'e', 'g');
            lemma_quatro(e@, 't', 'o', 'm', 'l');
            lemma_quatro(e@, 'f', 'l', 'a', 'c');
        }
    }
    r
}

proof fn lemma_tres(e: Seq<char>, a: char, b: char, c: char)
    requires
        e.len() == 3,
    ensures
        e == seq![a, b, c] <==> (e[0] == a && e[1] == b && e[2] == c),
{
    if e[0] == a && e[1] == b && e[2] == c {
        assert(e =~= seq![a, b, c]);
    }
}

proof fn lemma_quatro(e: Seq<char>, a: char, b: char, c: char, d: char)
    requires
        e.len() == 4,
    ensures
        e == seq![a, b, c, d] <==> (e[0] == a && e[1] == b && e[2] == c && e[3] == d),
{
    if e[0] == a && e[1] == b && e[2] == c && e[3] == d {
        assert(e =~= seq![a, b, c, d]);
    }
}

/// Appends the characters of `s` to `out`.
fn acrescentar(out: &mut Vec<char>, s: &Vec<char>)
    ensures
        final(out)@ == old(out)@ + s@,
{
    let mut i: usize = 0;
    while i < s.len()
        invariant
            i <= s.len(),
            out@ == old(out)@ + s@.subrange(0, i as int),
        decreases s.len() - i,
    {
        out.push(s[i]);
        i = i + 1;
        assert(out@ =~= old(out)@ + s@.subrange(0, i as int));
    }
    assert(s@.subrange(0, i as int) =~= s@);
}

/// The label of one directory entry.
pub fn rotulo_entrada(e: &EntradaPasta) -> (r: String)
    ensures
        r@ == rotulo(e@),
{
    let nome = caracteres(e.nome.as_str());
    let mut out: Vec<char> = Vec::new();
    out.push(' ');
    if e.eh_pasta {
        out.push('Ω');
        out.push(' ');
        acrescentar(&mut out, &nome);
        out.push('/');
    } else {
        let ext = minusculas_de(e.extensao.as_str());
        if eh_extensao_conhecida(&ext) {
            out.push('α');
        } else {
            out.push('Ξ');
        }
        out.push(' ');
        acrescentar(&mut out, &nome);
    }
    assert(out@ =~= rotulo(e@));
    texto_de(&out)
}

/// The labels of a list of entries.
pub open spec fn rotulos(es: Seq<(Seq<char>, bool, Seq<char>)>) -> Seq<Seq<char>> {
    es.map_values(|e: (Seq<char>, bool, Seq<char>)| rotulo(e))
}

/// The entries of a list, as values.
pub open spec fn vistas_entradas(es: Seq<EntradaPasta>) -> Seq<(Seq<char>, bool, Seq<char>)> {
    es.map_values(|e: EntradaPasta| e@)
}

/// Sorting keys of labels: the lowercase label.
pub open spec fn chaves_texto(ts: Seq<Seq<char>>) -> Seq<(u32, Seq<char>, int)> {
    ts.map_values(|t: Seq<char>| (0u32, minusculas(t), 0int))
}

/// The labels of the entries of a directory, sorted by lowercase label;
/// labels that are equal in lowercase keep the order of the entries.
pub fn obter_arquivos_da_pasta(entradas: &Vec<EntradaPasta>) -> (r: Vec<String>)
    ensures
        reordenado(
            rotulos(vistas_entradas(entradas@)),
            chaves_texto(rotulos(vistas_entradas(entradas@))),
            textos(r@),
        ),
{
    let ghost rs = rotulos(vistas_entradas(entradas@));
    let mut itens: Vec<String> = Vec::new();
    let mut ks: Vec<ChaveOrdem> = Vec::new();
    let mut i: usize = 0;
    while i < entradas.len()
        invariant
            i <= entradas.len(),
            rs == rotulos(vistas_entradas(entradas@)),
            textos(itens@) == rs.subrange(0, i as int),
            vistas_chaves(ks@) == chaves_texto(rs).subrange(0, i as int),
        decreases entradas.len() - i,
    {
        let t = rotulo_entrada(&entradas[i]);
        let texto = minusculas_de(t.as_str());
        let k = ChaveOrdem { uso: 0, texto, extra: 0 };
        let ghost ai = textos(itens@);
        let ghost ak = vistas_chaves(ks@);
        assert(t@ == rs[i as int]);
        itens.push(t);
        ks.push(k);
        assert(textos(itens@) =~= ai.push(rs[i as int]));
        assert(vistas_chaves(ks@) =~= ak.push(k@));
        assert(rs.subrange(0, i + 1) =~= rs.subrange(0, i as int).push(rs[i as int]));
        assert(chaves_texto(rs).subrange(0, i + 1) =~= chaves_texto(rs).subrange(0, i as int).push(k@));
        i = i + 1;
    }
    assert(rs.subrange(0, i as int) =~= rs);
    assert(chaves_texto(rs).subrange(0, i as int) =~= chaves_texto(rs));
    let p = ordem_estavel_de(&ks);
    let mut r: Vec<String> = Vec::new();
    let mut j: usize = 0;
    while j < p.len()
        invariant
            j <= p.len(),
            p.len() == itens.len(),
            forall|x: int| 0 <= x < p.len() ==> #[trigger] p@[x] < itens.len(),
            r.len() == j,
            forall|x: int| 0 <= x < j ==> #[trigger] r@[x]@ == itens@[p@[x] as int]@,
        decreases p.len() - j,
    {
        r.push(itens[p[j]].clone());
        j = j + 1;
    }
    assert(ordem_estavel(chaves_texto(rs), p@) && permutado(rs, p@, textos(r@)));
    r
}

/// The symbols removed from a label to find the entry's name.
pub open spec fn sem_simbolos(s: Seq<char>) -> Seq<char> {
    let s1 = substituir(s, simbolo_pasta(), seq![]);
    let s2 = substituir(s1, simbolo_arquivo(), seq![]);
    let s3 = substituir(s2, simbolo_historico(), seq![]);
    substituir(s3, simbolo_app(), seq![])
}

fn sem_simbolos_exec(s: &Vec<char>) -> (r: Vec<char>)
    ensures
        r@ == sem_simbolos(s@),
{
    let vazio: Vec<char> = Vec::new();
    let pasta: Vec<char> = vec!['Ω', ' '];
    let arquivo: Vec<char> = vec!['α', ' '];
    let historico: Vec<char> = vec!['Δ', ' '];
    let app: Vec<char> = vec!['Ξ', ' '];
    assert(vazio@ =~= Seq::<char>::empty());
    assert(pasta@ =~= simbolo_pasta());
    assert(arquivo@ =~= simbolo_arquivo());
    assert(historico@ =~= simbolo_historico());
    assert(app@ =~= simbolo_app());
    let s1 = substituir_exec(s, &pasta, &vazio);
    let s2 = substituir_exec(&s1, &arquivo, &vazio);
    let s3 = substituir_exec(&s2, &historico, &vazio);
    substituir_exec(&s3, &app, &vazio)
}

/// The name of the entry a label shows, as opening it finds it: every
/// symbol removed, then the surrounding whitespace.
pub fn nome_para_abrir(rotulo: &str) -> (r: String)
    ensures
        r@ == aparar(sem_simbolos(rotulo@)),
{
    let s = caracteres(rotulo);
    let semi = sem_simbolos_exec(&s);
    texto_de(&aparar_exec(&semi))
}

/// The name of the entry a label shows, as the preview finds it: the
/// surrounding whitespace removed, then every symbol.
pub fn nome_para_previa(rotulo: &str) -> (r: String)
    ensures
        r@ == sem_simbolos(aparar(rotulo@)),
{
    let s = caracteres(rotulo);
    let a = aparar_exec(&s);
    texto_de(&sem_simbolos_exec(&a))
}

/// A name that its label gives back: it holds none of the four marks and
/// neither starts nor ends with whitespace.
pub open spec fn nome_recuperavel(n: Seq<char>) -> bool {
    &&& sem_ocorrencia(n, simbolo_pasta())
    &&& sem_ocorrencia(n, simbolo_arquivo())
    &&& sem_ocorrencia(n, simbolo_historico())
    &&& sem_ocorrencia(n, simbolo_app())
    &&& n.len() > 0 ==> !espaco_branco(n[0]) && !espaco_branco(n.last())
}

/// `x` holds none of the four marks.
spec fn sem_marcas(x: Seq<char>) -> bool {
    &&& sem_ocorrencia(x, simbolo_pasta())
    &&& sem_ocorrencia(x, simbolo_arquivo())
    &&& sem_ocorrencia(x, simbolo_historico())
    &&& sem_ocorrencia(x, simbolo_app())
}

proof fn lemma_marcas_na_frente(c: char, x: Seq<char>)
    requires
        sem_marcas(x),
        c != 'Ω' && c != 'α' && c != 'Δ' && c != 'Ξ',
    ensures
        sem_marcas(seq![c] + x),
{
    lemma_sem_ocorrencia_na_frente(c, x, simbolo_pasta());
    lemma_sem_ocorrencia_na_frente(c, x, simbolo_arquivo());
    lemma_sem_ocorrencia_na_frente(c, x, simbolo_historico());
    lemma_sem_ocorrencia_na_frente(c, x, simbolo_app());
}

/// Removing the mark `m` from `" " + m + x`, where `x` has no mark, leaves
/// `" " + x`.
proof fn lemma_tira_marca(m: Seq<char>, x: Seq<char>)
    requires
        m == simbolo_pasta() || m == simbolo_arquivo() || m == simbolo_historico() || m == simbolo_app(),
        sem_marcas(x),
    ensures
        substituir(seq![' '] + (m + x), m, seq![]) == seq![' '] + x,
{
    lemma_substituir_primeiro_fica(' ', m + x, m, seq![]);
    lemma_substituir_no_inicio(m, x, seq![]);
    lemma_substituir_sem_ocorrencia(x, m, seq![]);
    assert(Seq::<char>::empty() + x =~= x);
}

/// Opening the label of an entry finds the entry again: its name, followed
/// by `'/'` for a directory, provided the name holds none of the marks and
/// neither starts nor ends with whitespace.
pub proof fn lei_rotulo_devolve_nome(e: (Seq<char>, bool, Seq<char>))
    requires
        nome_recuperavel(e.0),
    ensures
        aparar(sem_simbolos(rotulo(e))) == (if e.1 { e.0 + seq!['/'] } else { e.0 }),
{
    let n = e.0;
    let sp = seq![' '];
    if e.1 {
        let y = n + seq!['/'];
        lemma_sem_ocorrencia_atras(n, '/', simbolo_pasta());
        lemma_sem_ocorrencia_atras(n, '/', simbolo_arquivo());
        lemma_sem_ocorrencia_atras(n, '/', simbolo_historico());
        lemma_sem_ocorrencia_atras(n, '/', simbolo_app());
        assert(rotulo(e) =~= sp + (simbolo_pasta() + y));
        lemma_tira_marca(simbolo_pasta(), y);
        lemma_marcas_na_frente(' ', y);
        lemma_substituir_sem_ocorrencia(sp + y, simbolo_arquivo(), seq![]);
        lemma_substituir_sem_ocorrencia(sp + y, simbolo_historico(), seq![]);
        lemma_substituir_sem_ocorrencia(sp + y, simbolo_app(), seq![]);
        assert(!espaco_branco('/'));
        if n.len() > 0 {
            assert(y[0] == n[0]);
        }
        lemma_aparar_espaco_inicial(y);
    } else {
        let m = if extensao_conhecida(minusculas(e.2)) { simbolo_arquivo() } else { simbolo_app() };
        assert(rotulo(e) =~= sp + (m + n));
        lemma_tira_marca(m, n);
        lemma_marcas_na_frente(' ', n);
        // the marks removed before `m` find nothing; after it, `" " + name` holds none
        let l = sp + (m + n);
        if m == simbolo_arquivo() {
            let resto = seq!['α'] + (sp + n);
            lemma_sem_ocorrencia_na_frente('α', sp + n, simbolo_pasta());
            lemma_sem_ocorrencia_na_frente(' ', resto, simbolo_pasta());
            assert(l =~= sp + resto);
            lemma_substituir_sem_ocorrencia(l, simbolo_pasta(), seq![]);
            lemma_substituir_sem_ocorrencia(sp + n, simbolo_historico(), seq![]);
            lemma_substituir_sem_ocorrencia(sp + n, simbolo_app(), seq![]);
        } else {
            let resto = seq!['Ξ'] + (sp + n);
            lemma_sem_ocorrencia_na_frente('Ξ', sp + n, simbolo_pasta());
            lemma_sem_ocorrencia_na_frente('Ξ', sp + n, simbolo_arquivo());
            lemma_sem_ocorrencia_na_frente('Ξ', sp + n, simbolo_historico());
            lemma_sem_ocorrencia_na_frente(' ', resto, simbolo_pasta());
            lemma_sem_ocorrencia_na_frente(' ', resto, simbolo_arquivo());
            lemma_sem_ocorrencia_na_frente(' ', resto, simbolo_historico());
            assert(l =~= sp + resto);
            lemma_substituir_sem_ocorrencia(l, simbolo_pasta(), seq![]);
            lemma_substituir_sem_ocorrencia(l, simbolo_arquivo(), seq![]);
            lemma_substituir_sem_ocorrencia(l, simbolo_historico(), seq![]);
        }
        lemma_aparar_espaco_inicial(n);
    }
}

} // verus!
