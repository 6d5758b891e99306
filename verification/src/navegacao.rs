//! The keyboard: which column has the focus, the selections of the three
//! columns, the query of the central column, and what each key does to them
//! and asks the program to carry out.

use vstd::prelude::*;
use crate::texto::{caracteres, texto_de};
use crate::aplicativo::{AppLauncher, VistaApp, vistas_apps, copiar_lista};
use crate::busca::{filtrar_apps, resultado_busca, candidatos, entradas_de};
use crate::ordem::{reordenado, ordem_estavel, permutado};
use crate::aplicativo::chaves_uso;
use crate::historico::{primeiro_com_nome, contar_uso, registrar_uso_historico};

verus! {

/// The column that receives the keys.
#[derive(PartialEq, Eq, Structural, Clone, Copy, Debug)]
pub enum ColunaAtiva {
    DiretorioEsquerda,
    AplicativosMeio,
    PreviewDireita,
}

/// A key the launcher reacts to.
#[derive(PartialEq, Eq, Structural, Clone, Copy, Debug)]
pub enum Tecla {
    Esc,
    Tab,
    Cima,
    Baixo,
    Apagar,
    Esquerda,
    Enter,
    Caractere(char),
    F(u8),
    Outra,
}

/// What the program has to carry out after a key.
#[derive(PartialEq, Eq, Structural, Clone, Copy, Debug)]
pub enum Acao {
    Nenhuma,
    /// Leave the launcher.
    Sair,
    /// Show the home directory in the left column.
    IrParaInicio,
    /// Stop the music player.
    PararMusica,
    /// Show the parent directory in the left column.
    SubirPasta,
    /// Start the entry at this position of the central column.
    ExecutarApp(usize),
    /// Open the entry at this position of the directory listing.
    AbrirEntrada(usize),
    /// Hand the terminal to `nano`.
    AbrirNano,
    /// Show `fastfetch` and wait for Enter.
    MostrarSistema,
    /// Hand the terminal to `yazi`.
    AbrirYazi,
    /// Apply the colour theme with this index.
    TrocarCor(u8),
    /// Ask for a wallpaper.
    PapelDeParede,
}

/// The state of the screen: focused column, query, the central column's
/// entries, the selection of each column and the colour theme.
pub struct Painel {
    pub coluna: ColunaAtiva,
    pub busca: String,
    pub filtrados: Vec<AppLauncher>,
    pub sel_apps: Option<usize>,
    pub sel_dir: Option<usize>,
    pub sel_previa: Option<usize>,
    pub indice_cor: u8,
}

/// The first selectable row of the left column (after the history rows and
/// the separator).
pub open spec fn primeira_linha_dir() -> usize {
    4
}

/// The last row the preview column can scroll to.
pub open spec fn ultima_linha_previa() -> usize {
    15
}

/// Tab moves the focus left to right, and from the right back to the left.
pub open spec fn coluna_seguinte(c: ColunaAtiva) -> ColunaAtiva {
    match c {
        ColunaAtiva::DiretorioEsquerda => ColunaAtiva::AplicativosMeio,
        ColunaAtiva::AplicativosMeio => ColunaAtiva::PreviewDireita,
        ColunaAtiva::PreviewDireita => ColunaAtiva::DiretorioEsquerda,
    }
}

/// Both states agree on everything but the listed parts.
pub open spec fn mesmos_campos(
    a: Painel,
    d: Painel,
    coluna: bool,
    busca: bool,
    sel_apps: bool,
    sel_dir: bool,
    sel_previa: bool,
    cor: bool,
) -> bool {
    &&& !coluna ==> d.coluna == a.coluna
    &&& !busca ==> d.busca@ == a.busca@ && vistas_apps(d.filtrados@) == vistas_apps(a.filtrados@)
    &&& !sel_apps ==> d.sel_apps == a.sel_apps
    &&& !sel_dir ==> d.sel_dir == a.sel_dir
    &&& !sel_previa ==> d.sel_previa == a.sel_previa
    &&& !cor ==> d.indice_cor == a.indice_cor
}

/// Nothing changes.
pub open spec fn igual(a: Painel, d: Painel) -> bool {
    mesmos_campos(a, d, false, false, false, false, false, false)
}

/// The query became `nova`, the central column shows its result, and the
/// first row is selected when there is one.
pub open spec fn busca_refeita(a: Painel, d: Painel, lista: Seq<VistaApp>, nova: Seq<char>) -> bool {
    &&& d.busca@ == nova
    &&& resultado_busca(lista, nova, vistas_apps(d.filtrados@))
    &&& d.sel_apps == (if d.filtrados.len() > 0 { Some(0usize) } else { a.sel_apps })
    &&& mesmos_campos(a, d, false, true, true, false, false, false)
}

/// The query was cleared and the central column shows every entry; the
/// selections are kept.
pub open spec fn busca_limpa(a: Painel, d: Painel, lista: Seq<VistaApp>) -> bool {
    &&& d.busca@.len() == 0
    &&& vistas_apps(d.filtrados@) == lista
    &&& resultado_busca(lista, d.busca@, vistas_apps(d.filtrados@))
    &&& mesmos_campos(a, d, false, true, false, false, false, false)
}

/// The selection of the focused column after Up.
pub open spec fn apos_cima(a: Painel, d: Painel) -> bool {
    match a.coluna {
        ColunaAtiva::AplicativosMeio => {
            &&& d.sel_apps == (match a.sel_apps {
                Some(i) => if i > 0 { Some((i - 1) as usize) } else { Some(i) },
                None => None,
            })
            &&& mesmos_campos(a, d, false, false, true, false, false, false)
        },
        ColunaAtiva::DiretorioEsquerda => {
            &&& d.sel_dir == (match a.sel_dir {
                Some(i) => if i > primeira_linha_dir() { Some((i - 1) as usize) } else { Some(i) },
                None => None,
            })
            &&& mesmos_campos(a, d, false, false, false, true, false, false)
        },
        ColunaAtiva::PreviewDireita => {
            &&& d.sel_previa == (match a.sel_previa {
                Some(i) => if i > 0 { Some((i - 1) as usize) } else { Some(i) },
                None => None,
            })
            &&& mesmos_campos(a, d, false, false, false, false, true, false)
        },
    }
}

/// The selection of the focused column after Down.
pub open spec fn apos_baixo(a: Painel, d: Painel, n_dir: nat) -> bool {
    match a.coluna {
        ColunaAtiva::AplicativosMeio => {
            &&& d.sel_apps == (match a.sel_apps {
                Some(i) => if i + 1 < a.filtrados.len() { Some((i + 1) as usize) } else { Some(i) },
                None => None,
            })
            &&& mesmos_campos(a, d, false, false, true, false, false, false)
        },
        ColunaAtiva::DiretorioEsquerda => {
            &&& d.sel_dir == (match a.sel_dir {
                Some(i) => if i < n_dir + primeira_linha_dir() - 1 { Some((i + 1) as usize) } else { Some(i) },
                None => None,
            })
            &&& mesmos_campos(a, d, false, false, false, true, false, false)
        },
        ColunaAtiva::PreviewDireita => {
            &&& d.sel_previa == (match a.sel_previa {
                Some(i) => if i < ultima_linha_previa() { Some((i + 1) as usize) } else { Some(i) },
                None => None,
            })
            &&& mesmos_campos(a, d, false, false, false, false, true, false)
        },
    }
}

/// What a key does: `a` is the state before, `d` after, `lista` the whole
/// catalogue, `n_dir` the number of entries of the directory shown.
pub open spec fn transicao(a: Painel, d: Painel, t: Tecla, lista: Seq<VistaApp>, n_dir: nat, acao: Acao) -> bool {
    match t {
        Tecla::Esc => igual(a, d) && acao == Acao::Sair,
        Tecla::Tab => {
            &&& d.coluna == coluna_seguinte(a.coluna)
            &&& mesmos_campos(a, d, true, false, false, false, false, false)
            &&& acao == Acao::Nenhuma
        },
        Tecla::Cima => apos_cima(a, d) && acao == Acao::Nenhuma,
        Tecla::Baixo => apos_baixo(a, d, n_dir) && acao == Acao::Nenhuma,
        Tecla::Apagar => if a.coluna == ColunaAtiva::AplicativosMeio {
            let nova = if a.busca@.len() > 0 { a.busca@.drop_last() } else { a.busca@ };
            busca_refeita(a, d, lista, nova) && acao == Acao::Nenhuma
        } else {
            igual(a, d) && acao == Acao::Nenhuma
        },
        Tecla::Caractere(c) => if a.coluna == ColunaAtiva::AplicativosMeio {
            busca_refeita(a, d, lista, a.busca@.push(c)) && acao == Acao::Nenhuma
        } else if c == 'h' {
            igual(a, d) && acao == Acao::IrParaInicio
        } else if c == 'm' {
            igual(a, d) && acao == Acao::PararMusica
        } else {
            igual(a, d) && acao == Acao::Nenhuma
        },
        Tecla::Esquerda => igual(a, d) && acao == (if a.coluna == ColunaAtiva::AplicativosMeio {
            Acao::Nenhuma
        } else {
            Acao::SubirPasta
        }),
        Tecla::Enter => igual(a, d) && acao == (match a.coluna {
            ColunaAtiva::AplicativosMeio => match a.sel_apps {
                Some(i) => if i < a.filtrados.len() { Acao::ExecutarApp(i) } else { Acao::Nenhuma },
                None => Acao::Nenhuma,
            },
            ColunaAtiva::DiretorioEsquerda => match a.sel_dir {
                Some(i) => if i >= primeira_linha_dir() && i - primeira_linha_dir() < n_dir {
                    Acao::AbrirEntrada((i - primeira_linha_dir()) as usize)
                } else {
                    Acao::Nenhuma
                },
                None => Acao::Nenhuma,
            },
            ColunaAtiva::PreviewDireita => Acao::Nenhuma,
        }),
        Tecla::F(n) => if n == 1 {
            busca_limpa(a, d, lista) && acao == Acao::AbrirNano
        } else if n == 2 {
            busca_limpa(a, d, lista) && acao == Acao::MostrarSistema
        } else if n == 3 {
            busca_limpa(a, d, lista) && acao == Acao::AbrirYazi
        } else if n == 4 {
            &&& d.indice_cor == (a.indice_cor + 1) % 4
            &&& mesmos_campos(a, d, false, false, false, false, false, true)
            &&& acao == Acao::TrocarCor(d.indice_cor)
        } else if n == 5 {
            igual(a, d) && acao == Acao::PapelDeParede
        } else if n == 10 {
            igual(a, d) && acao == Acao::Sair
        } else {
            igual(a, d) && acao == Acao::Nenhuma
        },
        Tecla::Outra => igual(a, d) && acao == Acao::Nenhuma,
    }
}

/// The state is well formed: the colour theme is one of the four.
pub open spec fn painel_valido(p: Painel) -> bool {
    p.indice_cor < 4
}

/// Whether a key can be handled in this state without an arithmetic
/// overflow: Down in the central column with a selection needs a
/// non-empty column.
pub open spec fn tecla_admitida(a: Painel, t: Tecla) -> bool {
    t == Tecla::Baixo && a.coluna == ColunaAtiva::AplicativosMeio && a.sel_apps is Some ==> a.filtrados.len() > 0
}

fn refazer_busca(p: &mut Painel, lista: &Vec<AppLauncher>, nova: Vec<char>)
    ensures
        busca_refeita(*old(p), *final(p), vistas_apps(lista@), nova@),
{
    let busca = texto_de(&nova);
    let filtrados = filtrar_apps(lista.as_slice(), busca.as_str());
    p.busca = busca;
    p.filtrados = filtrados;
    if p.filtrados.len() > 0 {
        p.sel_apps = Some(0);
    }
}

fn limpar_busca(p: &mut Painel, lista: &Vec<AppLauncher>)
    ensures
        busca_limpa(*old(p), *final(p), vistas_apps(lista@)),
{
    let busca = String::new();
    let filtrados = filtrar_apps(lista.as_slice(), busca.as_str());
    p.busca = busca;
    p.filtrados = filtrados;
}

/// Handles one key: updates the state and says what the program has to
/// carry out (see `transicao`).
pub fn tratar_tecla(p: &mut Painel, tecla: Tecla, lista: &Vec<AppLauncher>, n_dir: usize) -> (acao: Acao)
    requires
        painel_valido(*old(p)),
        tecla_admitida(*old(p), tecla),
        n_dir + primeira_linha_dir() <= usize::MAX,
    ensures
        painel_valido(*final(p)),
        transicao(*old(p), *final(p), tecla, vistas_apps(lista@), n_dir as nat, acao),
{
    match tecla {
        Tecla::Esc => Acao::Sair,
        Tecla::Tab => {
            p.coluna = match p.coluna {
                ColunaAtiva::DiretorioEsquerda => ColunaAtiva::AplicativosMeio,
                ColunaAtiva::AplicativosMeio => ColunaAtiva::PreviewDireita,
                ColunaAtiva::PreviewDireita => ColunaAtiva::DiretorioEsquerda,
            };
            Acao::Nenhuma
        },
        Tecla::Cima => {
            match p.coluna {
                ColunaAtiva::AplicativosMeio => {
                    if let Some(i) = p.sel_apps {
                        if i > 0 {
                            p.sel_apps = Some(i - 1);
                        }
                    }
                },
                ColunaAtiva::DiretorioEsquerda => {
                    if let Some(i) = p.sel_dir {
                        if i > 4 {
                            p.sel_dir = Some(i - 1);
                        }
                    }
                },
                ColunaAtiva::PreviewDireita => {
                    if let Some(i) = p.sel_previa {
                        if i > 0 {
                            p.sel_previa = Some(i - 1);
                        }
                    }
                },
            }
            Acao::Nenhuma
        },
        Tecla::Baixo => {
            match p.coluna {
                ColunaAtiva::AplicativosMeio => {
                    if let Some(i) = p.sel_apps {
                        if i < p.filtrados.len() - 1 {
                            p.sel_apps = Some(i + 1);
                        }
                    }
                },
                ColunaAtiva::DiretorioEsquerda => {
                    if let Some(i) = p.sel_dir {
                        if i < n_dir + 4 - 1 {
                            p.sel_dir = Some(i + 1);
                        }
                    }
                },
                ColunaAtiva::PreviewDireita => {
                    if let Some(i) = p.sel_previa {
                        if i < 15 {
                            p.sel_previa = Some(i + 1);
                        }
                    }
                },
            }
            Acao::Nenhuma
        },
        Tecla::Apagar => {
            if p.coluna == ColunaAtiva::AplicativosMeio {
                let mut cs = caracteres(p.busca.as_str());
                cs.pop();
                proof {
                    if old(p).busca@.len() > 0 {
                        assert(cs@ =~= old(p).busca@.drop_last());
                    }
                }
                refazer_busca(p, lista, cs);
            }
            Acao::Nenhuma
        },
        Tecla::Caractere(c) => {
            if p.coluna == ColunaAtiva::AplicativosMeio {
                let mut cs = caracteres(p.busca.as_str());
                cs.push(c);
                refazer_busca(p, lista, cs);
                Acao::Nenhuma
            } else if c == 'h' {
                Acao::IrParaInicio
            } else if c == 'm' {
                Acao::PararMusica
            } else {
                Acao::Nenhuma
            }
        },
        Tecla::Esquerda => {
            if p.coluna == ColunaAtiva::DiretorioEsquerda || p.coluna == ColunaAtiva::PreviewDireita {
                Acao::SubirPasta
            } else {
                Acao::Nenhuma
            }
        },
        Tecla::Enter => {
            if p.coluna == ColunaAtiva::AplicativosMeio {
                match p.sel_apps {
                    Some(i) => if i < p.filtrados.len() { Acao::ExecutarApp(i) } else { Acao::Nenhuma },
                    None => Acao::Nenhuma,
                }
            } else if p.coluna == ColunaAtiva::DiretorioEsquerda {
                match p.sel_dir {
                    Some(i) => if i >= 4 && i - 4 < n_dir { Acao::AbrirEntrada(i - 4) } else { Acao::Nenhuma },
                    None => Acao::Nenhuma,
                }
            } else {
                Acao::Nenhuma
            }
        },
        Tecla::F(n) => {
            if n == 1 {
                limpar_busca(p, lista);
                Acao::AbrirNano
            } else if n == 2 {
                limpar_busca(p, lista);
                Acao::MostrarSistema
            } else if n == 3 {
                limpar_busca(p, lista);
                Acao::AbrirYazi
            } else if n == 4 {
                p.indice_cor = (p.indice_cor + 1) % 4;
                Acao::TrocarCor(p.indice_cor)
            } else if n == 5 {
                Acao::PapelDeParede
            } else if n == 10 {
                Acao::Sair
            } else {
                Acao::Nenhuma
            }
        },
        Tecla::Outra => Acao::Nenhuma,
    }
}

/// The state when the launcher opens: focus on the central column, empty
/// query, every entry shown and the first one selected, the first file row
/// of the left column selected, the first theme.
pub fn estado_inicial(lista: &Vec<AppLauncher>, n_dir: usize) -> (p: Painel)
    ensures
        painel_valido(p),
        p.coluna == ColunaAtiva::AplicativosMeio,
        p.busca@.len() == 0,
        vistas_apps(p.filtrados@) == vistas_apps(lista@),
        p.sel_apps == (if lista.len() > 0 { Some(0usize) } else { None }),
        p.sel_dir == (if n_dir > 0 { Some(primeira_linha_dir()) } else { None }),
        p.sel_previa == Some(0usize),
        p.indice_cor == 0,
{
    let filtrados = copiar_lista(lista.as_slice());
    Painel {
        coluna: ColunaAtiva::AplicativosMeio,
        busca: String::new(),
        filtrados,
        sel_apps: if lista.len() > 0 { Some(0) } else { None },
        sel_dir: if n_dir > 0 { Some(4) } else { None },
        sel_previa: Some(0),
        indice_cor: 0,
    }
}

/// After the left column shows another directory: its first file row is
/// selected and it has the focus.
pub fn apos_mudar_pasta(p: &mut Painel)
    ensures
        final(p).sel_dir == Some(primeira_linha_dir()),
        final(p).coluna == ColunaAtiva::DiretorioEsquerda,
        mesmos_campos(*old(p), *final(p), true, false, false, true, false, false),
{
    p.sel_dir = Some(4);
    p.coluna = ColunaAtiva::DiretorioEsquerda;
}

/// Starting the entry at position `i` of the central column: gives that
/// entry, counts one more start of it in the catalogue (which is sorted by
/// usage again), clears the query, shows the whole catalogue and selects its
/// first row.
pub fn iniciar_app(p: &mut Painel, lista: &mut Vec<AppLauncher>, i: usize) -> (app: AppLauncher)
    requires
        i < old(p).filtrados.len(),
        primeiro_com_nome(vistas_apps(old(lista)@), old(p).filtrados@[i as int].nome@, 0) < old(lista).len() ==>
            old(lista)@[primeiro_com_nome(vistas_apps(old(lista)@), old(p).filtrados@[i as int].nome@, 0)].invocacoes < u32::MAX,
    ensures
        app == old(p).filtrados@[i as int],
        reordenado(
            contar_uso(vistas_apps(old(lista)@), app.nome@),
            chaves_uso(contar_uso(vistas_apps(old(lista)@), app.nome@)),
            vistas_apps(final(lista)@),
        ),
        final(p).busca@.len() == 0,
        vistas_apps(final(p).filtrados@) == vistas_apps(final(lista)@),
        final(p).sel_apps == (if final(lista).len() > 0 { Some(0usize) } else { old(p).sel_apps }),
        mesmos_campos(*old(p), *final(p), false, true, true, false, false, false),
{
    let app = p.filtrados[i].duplicar();
    registrar_uso_historico(app.nome.as_str(), lista);
    p.busca = String::new();
    p.filtrados = copiar_lista(lista.as_slice());
    if p.filtrados.len() > 0 {
        p.sel_apps = Some(0);
    }
    app
}

/// The positions of the first (at most three) started entries, in order:
/// the quick history rows of the left column.
pub open spec fn recentes_de(apps: Seq<VistaApp>, i: int, faltam: nat) -> Seq<usize>
    decreases apps.len() - i,
{
    if i < 0 || i >= apps.len() || faltam == 0 {
        seq![]
    } else if apps[i].2 > 0 {
        seq![i as usize] + recentes_de(apps, i + 1, (faltam - 1) as nat)
    } else {
        recentes_de(apps, i + 1, faltam)
    }
}

/// The rows of the quick history: the first three started entries of the
/// catalogue, by position.
pub fn recentes(apps: &Vec<AppLauncher>) -> (r: Vec<usize>)
    ensures
        r@ == recentes_de(vistas_apps(apps@), 0, 3),
{
    let ghost vs = vistas_apps(apps@);
    let mut r: Vec<usize> = Vec::new();
    let mut i: usize = 0;
    let mut faltam: usize = 3;
    while i < apps.len() && faltam > 0
        invariant
            i <= apps.len(),
            faltam <= 3,
            vs == vistas_apps(apps@),
            r@ + recentes_de(vs, i as int, faltam as nat) == recentes_de(vs, 0, 3),
        decreases apps.len() - i,
    {
        if apps[i].invocacoes > 0 {
            let ghost antes = r@;
            r.push(i);
            assert(antes + recentes_de(vs, i as int, faltam as nat)
                =~= r@ + recentes_de(vs, i + 1, (faltam - 1) as nat));
            faltam = faltam - 1;
        }
        i = i + 1;
    }
    assert(recentes_de(vs, i as int, faltam as nat) =~= Seq::<usize>::empty());
    assert(r@ + Seq::<usize>::empty() =~= r@);
    r
}
/// Three presses of Tab bring the focus back to the same column.
pub proof fn lei_tab_circular(c: ColunaAtiva)
    ensures
        coluna_seguinte(coluna_seguinte(coluna_seguinte(c))) == c,
        coluna_seguinte(c) != c,
{
}

/// Four presses of F4 bring back the same colour theme.
pub proof fn lei_tema_circular(i: u8)
    requires
        i < 4,
    ensures
        ((((i + 1) % 4 + 1) % 4 + 1) % 4 + 1) % 4 == i,
{
}

/// Whatever the key, a selection among the file rows of the left column
/// stays among the file rows.
pub proof fn lei_selecao_dir(a: Painel, d: Painel, t: Tecla, lista: Seq<VistaApp>, n_dir: nat, acao: Acao)
    requires
        transicao(a, d, t, lista, n_dir, acao),
        n_dir + primeira_linha_dir() <= usize::MAX,
        a.sel_dir is Some,
        primeira_linha_dir() <= a.sel_dir->0 < n_dir + primeira_linha_dir(),
    ensures
        d.sel_dir is Some,
        primeira_linha_dir() <= d.sel_dir->0 < n_dir + primeira_linha_dir(),
{
    let i = a.sel_dir->0;
    if a.coluna == ColunaAtiva::DiretorioEsquerda {
        if t == Tecla::Cima && i > primeira_linha_dir() {
            assert(d.sel_dir == Some((i - 1) as usize));
        } else if t == Tecla::Baixo && i < n_dir + primeira_linha_dir() - 1 {
            assert(d.sel_dir == Some((i + 1) as usize));
        }
    }
}

proof fn lemma_candidatos_curtos(apps: Seq<VistaApp>, q: Seq<char>)
    ensures
        candidatos(apps, q).len() <= apps.len(),
    decreases apps.len(),
{
    if apps.len() > 0 {
        lemma_candidatos_curtos(apps.drop_last(), q);
    }
}

proof fn lemma_resultado_curto(lista: Seq<VistaApp>, busca: Seq<char>, res: Seq<VistaApp>)
    requires
        resultado_busca(lista, busca, res),
    ensures
        res.len() <= lista.len(),
{
    if crate::texto::minusculas(busca).len() > 0 {
        let cs = candidatos(lista, crate::texto::minusculas(busca));
        lemma_candidatos_curtos(lista, crate::texto::minusculas(busca));
        let p = choose|p: Seq<usize>| #[trigger] ordem_estavel(crate::busca::chaves_busca(cs), p)
            && permutado(entradas_de(cs), p, res);
        assert(res.len() == p.len());
    }
}

/// The highlighted row of the central column always exists while the
/// column shows a search result over the catalogue: if it exists before a
/// key, it exists after it, unless the column became empty.
pub proof fn lei_selecao_apps(a: Painel, d: Painel, t: Tecla, lista: Seq<VistaApp>, n_dir: nat, acao: Acao)
    requires
        transicao(a, d, t, lista, n_dir, acao),
        resultado_busca(lista, a.busca@, vistas_apps(a.filtrados@)),
        a.sel_apps matches Some(i) && i < a.filtrados.len(),
    ensures
        resultado_busca(lista, d.busca@, vistas_apps(d.filtrados@)),
        d.filtrados.len() == 0 || (d.sel_apps matches Some(j) && j < d.filtrados.len()),
{
    lemma_resultado_curto(lista, a.busca@, vistas_apps(a.filtrados@));
    assert(vistas_apps(a.filtrados@).len() == a.filtrados.len());
    assert(vistas_apps(d.filtrados@).len() == d.filtrados.len());
}
/// Backspace in the central column removes the last character of a
/// non-empty query (the new query is the old one without it) and shows the
/// result of the new query.
pub proof fn lei_apagar(a: Painel, d: Painel, lista: Seq<VistaApp>, n_dir: nat, acao: Acao)
    requires
        transicao(a, d, Tecla::Apagar, lista, n_dir, acao),
        a.coluna == ColunaAtiva::AplicativosMeio,
        a.busca@.len() > 0,
    ensures
        d.busca@.len() == a.busca@.len() - 1,
        forall|i: int| 0 <= i < d.busca@.len() ==> #[trigger] d.busca@[i] == a.busca@[i],
        resultado_busca(lista, d.busca@, vistas_apps(d.filtrados@)),
        acao == Acao::Nenhuma,
{
}

/// Typing a character in the central column appends it to the query and
/// shows the result of the new query.
pub proof fn lei_digitar(a: Painel, d: Painel, c: char, lista: Seq<VistaApp>, n_dir: nat, acao: Acao)
    requires
        transicao(a, d, Tecla::Caractere(c), lista, n_dir, acao),
        a.coluna == ColunaAtiva::AplicativosMeio,
    ensures
        d.busca@.len() == a.busca@.len() + 1,
        forall|i: int| 0 <= i < a.busca@.len() ==> #[trigger] d.busca@[i] == a.busca@[i],
        d.busca@[a.busca@.len() as int] == c,
        resultado_busca(lista, d.busca@, vistas_apps(d.filtrados@)),
        acao == Acao::Nenhuma,
{
}

/// Tab moves the focus from the left column to the central one, from the
/// central one to the right one and from the right one back to the left,
/// and changes nothing else.
pub proof fn lei_tab(a: Painel, d: Painel, lista: Seq<VistaApp>, n_dir: nat, acao: Acao)
    requires
        transicao(a, d, Tecla::Tab, lista, n_dir, acao),
    ensures
        a.coluna == ColunaAtiva::DiretorioEsquerda ==> d.coluna == ColunaAtiva::AplicativosMeio,
        a.coluna == ColunaAtiva::AplicativosMeio ==> d.coluna == ColunaAtiva::PreviewDireita,
        a.coluna == ColunaAtiva::PreviewDireita ==> d.coluna == ColunaAtiva::DiretorioEsquerda,
        d.busca@ == a.busca@,
        vistas_apps(d.filtrados@) == vistas_apps(a.filtrados@),
        d.sel_apps == a.sel_apps,
        d.sel_dir == a.sel_dir,
        d.sel_previa == a.sel_previa,
        d.indice_cor == a.indice_cor,
        acao == Acao::Nenhuma,
{
}

/// Up and Down move only the selection of the focused column, by one row,
/// and stop at its ends: row 0 of the central column and its last entry;
/// row 4 of the left column (the first file row) and its last file row;
/// rows 0 and 15 of the right column. The query, the entries shown, the
/// focus and the theme stay, and nothing is carried out.
pub proof fn lei_setas(a: Painel, d: Painel, t: Tecla, lista: Seq<VistaApp>, n_dir: nat, acao: Acao)
    requires
        transicao(a, d, t, lista, n_dir, acao),
        t == Tecla::Cima || t == Tecla::Baixo,
        n_dir + 4 <= usize::MAX,
    ensures
        d.coluna == a.coluna,
        d.busca@ == a.busca@,
        vistas_apps(d.filtrados@) == vistas_apps(a.filtrados@),
        d.indice_cor == a.indice_cor,
        acao == Acao::Nenhuma,
        a.coluna != ColunaAtiva::AplicativosMeio ==> d.sel_apps == a.sel_apps,
        a.coluna != ColunaAtiva::DiretorioEsquerda ==> d.sel_dir == a.sel_dir,
        a.coluna != ColunaAtiva::PreviewDireita ==> d.sel_previa == a.sel_previa,
        a.coluna == ColunaAtiva::AplicativosMeio ==> (d.sel_apps is Some <==> a.sel_apps is Some),
        a.coluna == ColunaAtiva::DiretorioEsquerda ==> (d.sel_dir is Some <==> a.sel_dir is Some),
        a.coluna == ColunaAtiva::PreviewDireita ==> (d.sel_previa is Some <==> a.sel_previa is Some),
        a.coluna == ColunaAtiva::AplicativosMeio && a.sel_apps is Some ==> d.sel_apps->0 as int == (if t
            == Tecla::Cima {
            if a.sel_apps->0 > 0 { a.sel_apps->0 - 1 } else { 0 }
        } else {
            if a.sel_apps->0 + 1 < a.filtrados.len() { a.sel_apps->0 + 1 } else { a.sel_apps->0 as int }
        }),
        a.coluna == ColunaAtiva::DiretorioEsquerda && a.sel_dir is Some ==> d.sel_dir->0 as int == (if t
            == Tecla::Cima {
            if a.sel_dir->0 > 4 { a.sel_dir->0 - 1 } else { a.sel_dir->0 as int }
        } else {
            if a.sel_dir->0 + 1 < n_dir + 4 { a.sel_dir->0 + 1 } else { a.sel_dir->0 as int }
        }),
        a.coluna == ColunaAtiva::PreviewDireita && a.sel_previa is Some ==> d.sel_previa->0 as int == (if t
            == Tecla::Cima {
            if a.sel_previa->0 > 0 { a.sel_previa->0 - 1 } else { 0 }
        } else {
            if a.sel_previa->0 < 15 { a.sel_previa->0 + 1 } else { a.sel_previa->0 as int }
        }),
{
}

/// Enter changes nothing on the screen: in the central column it starts
/// the highlighted entry, in the left column it opens the highlighted file
/// row (row 4 is the first entry of the directory), and elsewhere, or
/// with no such row, nothing is carried out.
pub proof fn lei_enter(a: Painel, d: Painel, lista: Seq<VistaApp>, n_dir: nat, acao: Acao)
    requires
        transicao(a, d, Tecla::Enter, lista, n_dir, acao),
    ensures
        d.coluna == a.coluna,
        d.busca@ == a.busca@,
        vistas_apps(d.filtrados@) == vistas_apps(a.filtrados@),
        d.sel_apps == a.sel_apps && d.sel_dir == a.sel_dir && d.sel_previa == a.sel_previa,
        d.indice_cor == a.indice_cor,
        acao is ExecutarApp <==> (a.coluna == ColunaAtiva::AplicativosMeio && a.sel_apps is Some
            && a.sel_apps->0 < a.filtrados.len()),
        acao is ExecutarApp ==> acao->ExecutarApp_0 == a.sel_apps->0,
        acao is AbrirEntrada <==> (a.coluna == ColunaAtiva::DiretorioEsquerda && a.sel_dir is Some && 4
            <= a.sel_dir->0 < n_dir + 4),
        acao is AbrirEntrada ==> acao->AbrirEntrada_0 + 4 == a.sel_dir->0,
        !(acao is ExecutarApp) && !(acao is AbrirEntrada) ==> acao == Acao::Nenhuma,
{
}

/// Outside the central column, `h` asks for the home directory, `m` stops
/// the music and other letters do nothing; none of them touches the query.
/// F1, F2 and F3 clear the query and show the whole catalogue before
/// handing the terminal to nano, the system summary and yazi; F4 moves to
/// the next of the four colour themes; F5 asks for a wallpaper; Esc and F10
/// leave.
pub proof fn lei_teclas_de_comando(a: Painel, d: Painel, t: Tecla, lista: Seq<VistaApp>, n_dir: nat, acao: Acao)
    requires
        transicao(a, d, t, lista, n_dir, acao),
    ensures
        a.coluna != ColunaAtiva::AplicativosMeio && t == Tecla::Caractere('h') ==> acao == Acao::IrParaInicio
            && d.busca@ == a.busca@,
        a.coluna != ColunaAtiva::AplicativosMeio && t == Tecla::Caractere('m') ==> acao == Acao::PararMusica
            && d.busca@ == a.busca@,
        a.coluna != ColunaAtiva::AplicativosMeio && t is Caractere && t->Caractere_0 != 'h' && t->Caractere_0
            != 'm' ==> acao == Acao::Nenhuma && d.busca@ == a.busca@,
        t == Tecla::F(1) ==> acao == Acao::AbrirNano && d.busca@.len() == 0 && vistas_apps(d.filtrados@) == lista,
        t == Tecla::F(2) ==> acao == Acao::MostrarSistema && d.busca@.len() == 0 && vistas_apps(d.filtrados@)
            == lista,
        t == Tecla::F(3) ==> acao == Acao::AbrirYazi && d.busca@.len() == 0 && vistas_apps(d.filtrados@) == lista,
        t == Tecla::F(4) && a.indice_cor < 4 ==> d.indice_cor as int == (if a.indice_cor == 3 {
            0
        } else {
            a.indice_cor + 1
        }) && acao == Acao::TrocarCor(d.indice_cor),
        t == Tecla::F(5) ==> acao == Acao::PapelDeParede,
        t == Tecla::Esc || t == Tecla::F(10) ==> acao == Acao::Sair,
{
}

} // verus!
