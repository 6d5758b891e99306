//! The usage history: one `name|count` line per started application.
//! Loading it sets the counts of the catalogue; starting an application
//! counts it; saving writes the lines back.

use vstd::prelude::*;
use crate::texto::{
    caracteres, texto_de, linhas, linhas_de, linhas_do_texto, vistas, proxima, lemma_proxima,
    lemma_proxima_sem, sem_cr,
};
use crate::numero::{ler_u32, ler_u32_exec, decimal, escrever_decimal, lemma_decimal, lei_decimal_ida_e_volta, eh_digito, so_digitos};
use crate::ordem::reordenado;
use crate::aplicativo::{AppLauncher, VistaApp, vistas_apps, chaves_uso, ordenar_por_uso};

verus! {

/// The entry a history line records: the text before its only `'|'` and
/// the count after it. Lines with no `'|'`, with more than one, or whose
/// count is not a `u32` record nothing.
pub open spec fn registro_de(l: Seq<char>) -> Option<(Seq<char>, u32)> {
    let k = proxima(l, '|', 0);
    if k >= l.len() {
        None
    } else if proxima(l, '|', k + 1) < l.len() {
        None
    } else {
        match ler_u32(l.subrange(k + 1, l.len() as int)) {
            Some(n) => Some((l.subrange(0, k), n)),
            None => None,
        }
    }
}

/// The entries that history lines record, in line order.
pub open spec fn registros(ls: Seq<Seq<char>>) -> Seq<(Seq<char>, u32)>
    decreases ls.len(),
{
    if ls.len() == 0 {
        seq![]
    } else {
        let ant = registros(ls.drop_last());
        match registro_de(ls.last()) {
            Some(r) => ant.push(r),
            None => ant,
        }
    }
}

/// Index of the first entry at or after `i` named `nome` (or the length).
pub open spec fn primeiro_com_nome(apps: Seq<VistaApp>, nome: Seq<char>, i: int) -> int
    decreases apps.len() - i,
{
    if i >= apps.len() {
        apps.len() as int
    } else if apps[i].0 == nome {
        i
    } else {
        primeiro_com_nome(apps, nome, i + 1)
    }
}

pub proof fn lemma_primeiro_com_nome(apps: Seq<VistaApp>, nome: Seq<char>, i: int)
    requires
        0 <= i <= apps.len(),
    ensures
        i <= primeiro_com_nome(apps, nome, i) <= apps.len(),
        primeiro_com_nome(apps, nome, i) < apps.len() ==> apps[primeiro_com_nome(apps, nome, i)].0 == nome,
        forall|k: int| i <= k < primeiro_com_nome(apps, nome, i) ==> apps[k].0 != nome,
    decreases apps.len() - i,
{
    if i < apps.len() && apps[i].0 != nome {
        lemma_primeiro_com_nome(apps, nome, i + 1);
    }
}

/// The entries with the count of the first entry named `nome` set to `n`.
pub open spec fn definir_usos(apps: Seq<VistaApp>, nome: Seq<char>, n: u32) -> Seq<VistaApp> {
    let i = primeiro_com_nome(apps, nome, 0);
    if 0 <= i < apps.len() {
        apps.update(i, (apps[i].0, apps[i].1, n))
    } else {
        apps
    }
}

/// The entries after applying the history records in order.
pub open spec fn aplicar_registros(apps: Seq<VistaApp>, regs: Seq<(Seq<char>, u32)>) -> Seq<VistaApp>
    decreases regs.len(),
{
    if regs.len() == 0 {
        apps
    } else {
        let ant = aplicar_registros(apps, regs.drop_last());
        definir_usos(ant, regs.last().0, regs.last().1)
    }
}

/// The entries after loading the history text `conteudo`, before sorting.
pub open spec fn apos_carregar(apps: Seq<VistaApp>, conteudo: Seq<char>) -> Seq<VistaApp> {
    aplicar_registros(apps, registros(linhas(conteudo)))
}

/// Index of the first entry named `nome`, or the number of entries.
pub fn posicao_do_nome(apps: &Vec<AppLauncher>, nome: &String) -> (r: usize)
    ensures
        r == primeiro_com_nome(vistas_apps(apps@), nome@, 0),
{
    let ghost vs = vistas_apps(apps@);
    let mut i: usize = 0;
    while i < apps.len()
        invariant
            i <= apps.len(),
            vs == vistas_apps(apps@),
            primeiro_com_nome(vs, nome@, 0) == primeiro_com_nome(vs, nome@, i as int),
        decreases apps.len() - i,
    {
        if apps[i].nome == *nome {
            assert(vs[i as int].0 == nome@);
            return i;
        }
        assert(vs[i as int].0 != nome@);
        i = i + 1;
    }
    i
}

/// Sets the count of the first entry named `nome` to `n`.
fn definir_usos_exec(apps: &mut Vec<AppLauncher>, nome: &String, n: u32)
    ensures
        vistas_apps(final(apps)@) == definir_usos(vistas_apps(old(apps)@), nome@, n),
{
    let i = posicao_do_nome(apps, nome);
    let ghost vs = vistas_apps(apps@);
    if i < apps.len() {
        let mut a = apps[i].duplicar();
        a.invocacoes = n;
        apps.set(i, a);
        assert(vistas_apps(apps@) =~= vs.update(i as int, (vs[i as int].0, vs[i as int].1, n)));
    }
}

/// Loads the history text into the catalogue: every recorded entry sets
/// the count of the first entry with that name, later lines winning; then
/// the catalogue is sorted by usage (most started first, then by lowercase
/// name, ties keeping their order).
pub fn carregar_historico(apps: &mut Vec<AppLauncher>, conteudo: &str)
    ensures
        reordenado(
            apos_carregar(vistas_apps(old(apps)@), conteudo@),
            chaves_uso(apos_carregar(vistas_apps(old(apps)@), conteudo@)),
            vistas_apps(final(apps)@),
        ),
{
    let ghost inicio = vistas_apps(apps@);
    let cs = caracteres(conteudo);
    let ls = linhas_do_texto(&cs);
    let mut i: usize = 0;
    while i < ls.len()
        invariant
            i <= ls.len(),
            vistas_apps(apps@) == aplicar_registros(inicio, registros(vistas(ls@).subrange(0, i as int))),
        decreases ls.len() - i,
    {
        let ghost pre = vistas(ls@).subrange(0, i as int);
        let ghost pos = vistas(ls@).subrange(0, i + 1);
        assert(pos.drop_last() =~= pre);
        assert(pos.last() == ls@[i as int]@);
        match ler_registro(&ls[i]) {
            Some((nome, n)) => {
                let nome_s = texto_de(&nome);
                definir_usos_exec(apps, &nome_s, n);
                assert(registros(pos) == registros(pre).push((nome@, n)));
                assert(registros(pos).drop_last() =~= registros(pre));
                assert(registros(pos).last() == (nome@, n));
            },
            None => {},
        }
        i = i + 1;
    }
    assert(vistas(ls@).subrange(0, i as int) =~= vistas(ls@));
    let ordenados = ordenar_por_uso(apps);
    *apps = ordenados;
}

/// The entry a history line records.
pub fn ler_registro(l: &Vec<char>) -> (r: Option<(Vec<char>, u32)>)
    ensures
        match r {
            Some((nome, n)) => registro_de(l@) == Some((nome@, n)),
            None => registro_de(l@) is None,
        },
{
    let mut k: usize = 0;
    while k < l.len() && l[k] != '|'
        invariant
            k <= l.len(),
            forall|x: int| 0 <= x < k ==> l@[x] != '|',
        decreases l.len() - k,
    {
        k = k + 1;
    }
    proof {
        lemma_proxima_sem(l@, '|', 0, k as int);
    }
    if k >= l.len() {
        return None;
    }
    let mut m: usize = k + 1;
    let mut resto: Vec<char> = Vec::new();
    while m < l.len() && l[m] != '|'
        invariant
            k + 1 <= m <= l.len(),
            forall|x: int| k + 1 <= x < m ==> l@[x] != '|',
            resto@ == l@.subrange(k + 1, m as int),
        decreases l.len() - m,
    {
        resto.push(l[m]);
        m = m + 1;
        assert(resto@ =~= l@.subrange(k + 1, m as int));
    }
    proof {
        lemma_proxima_sem(l@, '|', k + 1, m as int);
    }
    if m < l.len() {
        return None;
    }
    match ler_u32_exec(&resto) {
        Some(n) => {
            let mut nome: Vec<char> = Vec::new();
            let mut x: usize = 0;
            while x < k
                invariant
                    x <= k < l.len(),
                    nome@ == l@.subrange(0, x as int),
                decreases k - x,
            {
                nome.push(l[x]);
                x = x + 1;
                assert(nome@ =~= l@.subrange(0, x as int));
            }
            Some((nome, n))
        },
        None => None,
    }
}

/// The entries with one more start for the first entry named `nome`.
pub open spec fn contar_uso(apps: Seq<VistaApp>, nome: Seq<char>) -> Seq<VistaApp> {
    let i = primeiro_com_nome(apps, nome, 0);
    if 0 <= i < apps.len() {
        apps.update(i, (apps[i].0, apps[i].1, (apps[i].2 + 1) as u32))
    } else {
        apps
    }
}

/// Counts one more start of the first entry named `nome_app` (none when no
/// entry has that name), then sorts the catalogue by usage as loading does.
pub fn registrar_uso_historico(nome_app: &str, apps: &mut Vec<AppLauncher>)
    requires
        primeiro_com_nome(vistas_apps(old(apps)@), nome_app@, 0) < old(apps).len() ==>
            old(apps)@[primeiro_com_nome(vistas_apps(old(apps)@), nome_app@, 0)].invocacoes < u32::MAX,
    ensures
        reordenado(
            contar_uso(vistas_apps(old(apps)@), nome_app@),
            chaves_uso(contar_uso(vistas_apps(old(apps)@), nome_app@)),
            vistas_apps(final(apps)@),
        ),
{
    let ghost vs = vistas_apps(apps@);
    let nome = texto_de(&caracteres(nome_app));
    let i = posicao_do_nome(apps, &nome);
    proof {
        lemma_primeiro_com_nome(vs, nome_app@, 0);
    }
    if i < apps.len() {
        let mut a = apps[i].duplicar();
        a.invocacoes = a.invocacoes + 1;
        apps.set(i, a);
        assert(vistas_apps(apps@) =~= contar_uso(vs, nome_app@));
    } else {
        assert(vistas_apps(apps@) =~= contar_uso(vs, nome_app@));
    }
    let ordenados = ordenar_por_uso(apps);
    *apps = ordenados;
}

/// Whether counting one more start of `nome_app` stays within a `u32`
/// (the `requires` of `registrar_uso_historico`).
pub fn pode_registrar_uso(nome_app: &str, apps: &Vec<AppLauncher>) -> (r: bool)
    ensures
        r == (primeiro_com_nome(vistas_apps(apps@), nome_app@, 0) < apps.len() ==>
            apps@[primeiro_com_nome(vistas_apps(apps@), nome_app@, 0)].invocacoes < u32::MAX),
{
    let nome = texto_de(&caracteres(nome_app));
    let i = posicao_do_nome(apps, &nome);
    if i < apps.len() {
        apps[i].invocacoes < u32::MAX
    } else {
        true
    }
}

/// The history line of an entry: `name|count` and a line feed.
pub open spec fn linha_historico(a: VistaApp) -> Seq<char> {
    a.0 + seq!['|'] + decimal(a.2 as nat) + seq!['\n']
}

/// The history text of a catalogue: the line of each started entry, in
/// catalogue order.
pub open spec fn texto_historico(apps: Seq<VistaApp>) -> Seq<char>
    decreases apps.len(),
{
    if apps.len() == 0 {
        seq![]
    } else {
        let ant = texto_historico(apps.drop_last());
        if apps.last().2 > 0 {
            ant + linha_historico(apps.last())
        } else {
            ant
        }
    }
}

/// The history text to save for a catalogue.
pub fn serializar_historico(apps: &Vec<AppLauncher>) -> (r: String)
    ensures
        r@ == texto_historico(vistas_apps(apps@)),
{
    let mut out: Vec<char> = Vec::new();
    let mut i: usize = 0;
    while i < apps.len()
        invariant
            i <= apps.len(),
            out@ == texto_historico(vistas_apps(apps@).subrange(0, i as int)),
        decreases apps.len() - i,
    {
        let ghost pre = vistas_apps(apps@).subrange(0, i as int);
        let ghost pos = vistas_apps(apps@).subrange(0, i + 1);
        assert(pos.drop_last() =~= pre);
        assert(pos.last() == apps@[i as int]@);
        if apps[i].invocacoes > 0 {
            let ghost antes = out@;
            let nome = caracteres(apps[i].nome.as_str());
            let mut x: usize = 0;
            while x < nome.len()
                invariant
                    x <= nome.len(),
                    out@ == antes + nome@.subrange(0, x as int),
                decreases nome.len() - x,
            {
                out.push(nome[x]);
                x = x + 1;
                assert(out@ =~= antes + nome@.subrange(0, x as int));
            }
            assert(nome@.subrange(0, x as int) =~= nome@);
            out.push('|');
            escrever_decimal(apps[i].invocacoes, &mut out);
            out.push('\n');
            assert(out@ =~= antes + linha_historico(apps@[i as int]@));
        }
        i = i + 1;
    }
    assert(vistas_apps(apps@).subrange(0, i as int) =~= vistas_apps(apps@));
    texto_de(&out)
}

/// The name and count of each started entry, in catalogue order.
pub open spec fn usados(apps: Seq<VistaApp>) -> Seq<(Seq<char>, u32)>
    decreases apps.len(),
{
    if apps.len() == 0 {
        seq![]
    } else {
        let ant = usados(apps.drop_last());
        if apps.last().2 > 0 {
            ant.push((apps.last().0, apps.last().2))
        } else {
            ant
        }
    }
}

/// A name that a history line can hold: no `'|'` and no line feed.
pub open spec fn nome_gravavel(n: Seq<char>) -> bool {
    !n.contains('|') && !n.contains('\n')
}

proof fn lemma_proxima_prefixo(a: Seq<char>, b: Seq<char>, c: char, pos: int)
    requires
        0 <= pos <= a.len(),
        proxima(a, c, pos) < a.len(),
    ensures
        proxima(a + b, c, pos) == proxima(a, c, pos),
    decreases a.len() - pos,
{
    if pos < a.len() && a[pos] != c {
        lemma_proxima_prefixo(a, b, c, pos + 1);
    }
}

proof fn lemma_proxima_sufixo(a: Seq<char>, b: Seq<char>, c: char, j: int)
    requires
        0 <= j <= b.len(),
    ensures
        proxima(a + b, c, a.len() + j) == a.len() + proxima(b, c, j),
    decreases b.len() - j,
{
    if j < b.len() && b[j] != c {
        lemma_proxima_sufixo(a, b, c, j + 1);
    }
}

proof fn lemma_linhas_sufixo(a: Seq<char>, b: Seq<char>, j: int)
    requires
        0 <= j <= b.len(),
    ensures
        linhas_de(a + b, a.len() + j) == linhas_de(b, j),
    decreases b.len() - j,
{
    let c = a + b;
    if j < b.len() {
        lemma_proxima_sufixo(a, b, '\n', j);
        lemma_proxima(b, '\n', j);
        let k = proxima(b, '\n', j);
        if k >= b.len() {
            assert(c.subrange(a.len() + j, c.len() as int) =~= b.subrange(j, b.len() as int));
        } else {
            assert(c.subrange(a.len() + j, a.len() + k) =~= b.subrange(j, k));
            lemma_linhas_sufixo(a, b, k + 1);
        }
    }
}

proof fn lemma_linhas_concat_de(a: Seq<char>, b: Seq<char>, ini: int)
    requires
        0 <= ini <= a.len(),
        a.len() > 0 ==> a.last() == '\n',
    ensures
        linhas_de(a + b, ini) == linhas_de(a, ini) + linhas(b),
    decreases a.len() - ini,
{
    let c = a + b;
    if ini == a.len() {
        lemma_linhas_sufixo(a, b, 0);
        assert(linhas_de(a, ini) =~= Seq::<Seq<char>>::empty());
        assert(linhas_de(a, ini) + linhas(b) =~= linhas(b));
    } else {
        lemma_proxima(a, '\n', ini);
        let k = proxima(a, '\n', ini);
        if k >= a.len() {
            assert(a[a.len() - 1] != '\n');
        }
        lemma_proxima_prefixo(a, b, '\n', ini);
        assert(c.subrange(ini, k) =~= a.subrange(ini, k));
        lemma_linhas_concat_de(a, b, k + 1);
        assert(linhas_de(c, ini) == seq![sem_cr(a.subrange(ini, k))] + linhas_de(c, k + 1));
        assert(linhas_de(a, ini) == seq![sem_cr(a.subrange(ini, k))] + linhas_de(a, k + 1));
        assert(seq![sem_cr(a.subrange(ini, k))] + (linhas_de(a, k + 1) + linhas(b))
            =~= (seq![sem_cr(a.subrange(ini, k))] + linhas_de(a, k + 1)) + linhas(b));
    }
}

/// The lines of two texts, the first empty or ending in a line feed, are
/// the lines of the first followed by those of the second.
pub proof fn lemma_linhas_concat(a: Seq<char>, b: Seq<char>)
    requires
        a.len() > 0 ==> a.last() == '\n',
    ensures
        linhas(a + b) == linhas(a) + linhas(b),
{
    lemma_linhas_concat_de(a, b, 0);
}

proof fn lemma_registros_concat(x: Seq<Seq<char>>, y: Seq<Seq<char>>)
    ensures
        registros(x + y) == registros(x) + registros(y),
    decreases y.len(),
{
    if y.len() == 0 {
        assert(x + y =~= x);
        assert(registros(x) + registros(y) =~= registros(x));
    } else {
        lemma_registros_concat(x, y.drop_last());
        assert((x + y).drop_last() =~= x + y.drop_last());
        assert((x + y).last() == y.last());
        match registro_de(y.last()) {
            Some(r) => {
                assert(registros(x) + registros(y.drop_last()).push(r) =~= (registros(x) + registros(y.drop_last())).push(r));
            },
            None => {},
        }
    }
}

proof fn lemma_digitos_sem_barra(d: Seq<char>, c: char)
    requires
        so_digitos(d),
        c == '|' || c == '\n' || c == '\r',
    ensures
        !d.contains(c),
{
    if d.contains(c) {
        let i = choose|i: int| 0 <= i < d.len() && d[i] == c;
        assert(eh_digito(d[i]));
    }
}

proof fn lemma_linha_historico(a: VistaApp)
    requires
        nome_gravavel(a.0),
    ensures
        linhas(linha_historico(a)) == seq![a.0 + seq!['|'] + decimal(a.2 as nat)],
        registro_de(a.0 + seq!['|'] + decimal(a.2 as nat)) == Some((a.0, a.2)),
{
    let d = decimal(a.2 as nat);
    lemma_decimal(a.2 as nat);
    lei_decimal_ida_e_volta(a.2);
    lemma_digitos_sem_barra(d, '|');
    lemma_digitos_sem_barra(d, '\n');
    let corpo = a.0 + seq!['|'] + d;
    let l = corpo + seq!['\n'];
    assert(l =~= linha_historico(a));
    // the only line feed is the last character
    assert forall|k: int| 0 <= k < corpo.len() implies l[k] != '\n' by {
        if k < a.0.len() {
            assert(l[k] == a.0[k]);
            if a.0[k] == '\n' {
                assert(a.0.contains('\n'));
            }
        } else if k > a.0.len() {
            assert(l[k] == d[k - a.0.len() - 1]);
            if d[k - a.0.len() - 1] == '\n' {
                assert(d.contains('\n'));
            }
        }
    }
    lemma_proxima_sem(l, '\n', 0, corpo.len() as int);
    assert(l.subrange(0, corpo.len() as int) =~= corpo);
    assert(corpo.last() == d.last());
    assert(eh_digito(d[d.len() - 1]));
    assert(sem_cr(corpo) == corpo);
    assert(linhas_de(l, corpo.len() as int + 1) =~= Seq::<Seq<char>>::empty());
    assert(linhas(l) =~= seq![corpo]);
    // the only '|' is right after the name
    assert forall|k: int| 0 <= k < a.0.len() implies corpo[k] != '|' by {
        assert(corpo[k] == a.0[k]);
        if a.0[k] == '|' {
            assert(a.0.contains('|'));
        }
    }
    lemma_proxima_sem(corpo, '|', 0, a.0.len() as int);
    assert forall|k: int| a.0.len() + 1 <= k < corpo.len() implies corpo[k] != '|' by {
        assert(corpo[k] == d[k - a.0.len() - 1]);
        if d[k - a.0.len() - 1] == '|' {
            assert(d.contains('|'));
        }
    }
    lemma_proxima_sem(corpo, '|', a.0.len() as int + 1, corpo.len() as int);
    assert(corpo.subrange(a.0.len() as int + 1, corpo.len() as int) =~= d);
    assert(corpo.subrange(0, a.0.len() as int) =~= a.0);
}

proof fn lemma_texto_termina_em_quebra(apps: Seq<VistaApp>)
    ensures
        texto_historico(apps).len() > 0 ==> texto_historico(apps).last() == '\n',
    decreases apps.len(),
{
    if apps.len() > 0 {
        lemma_texto_termina_em_quebra(apps.drop_last());
    }
}

/// Reading back a saved history gives, in catalogue order, the name and
/// count of every started entry, provided no such name holds a `'|'` or a
/// line feed.
pub proof fn lei_historico_ida_e_volta(apps: Seq<VistaApp>)
    requires
        forall|i: int| 0 <= i < apps.len() && #[trigger] apps[i].2 > 0 ==> nome_gravavel(apps[i].0),
    ensures
        registros(linhas(texto_historico(apps))) == usados(apps),
    decreases apps.len(),
{
    if apps.len() == 0 {
        assert(linhas(Seq::<char>::empty()) =~= Seq::<Seq<char>>::empty());
    } else {
        let ant = apps.drop_last();
        assert forall|i: int| 0 <= i < ant.len() && #[trigger] ant[i].2 > 0 implies nome_gravavel(ant[i].0) by {
            assert(ant[i] == apps[i]);
        }
        lei_historico_ida_e_volta(ant);
        let x = apps.last();
        assert(apps[apps.len() - 1] == x);
        if x.2 > 0 {
            lemma_texto_termina_em_quebra(ant);
            lemma_linhas_concat(texto_historico(ant), linha_historico(x));
            lemma_linha_historico(x);
            let corpo = x.0 + seq!['|'] + decimal(x.2 as nat);
            lemma_registros_concat(linhas(texto_historico(ant)), seq![corpo]);
            assert(seq![corpo].drop_last() =~= Seq::<Seq<char>>::empty());
            assert(seq![corpo].last() == corpo);
            assert(registros(Seq::<Seq<char>>::empty()) =~= Seq::<(Seq<char>, u32)>::empty());
            assert(registro_de(corpo) == Some((x.0, x.2)));
            assert(registros(seq![corpo]) =~= seq![(x.0, x.2)]);
            assert(usados(ant) + seq![(x.0, x.2)] =~= usados(ant).push((x.0, x.2)));
        }
    }
}


/// No two entries share a name.
pub open spec fn nomes_distintos(apps: Seq<VistaApp>) -> bool {
    forall|i: int, j: int|
        0 <= i < apps.len() && 0 <= j < apps.len() && i != j ==> #[trigger] apps[i].0 != #[trigger] apps[j].0
}

/// The count that the last record for `n` sets, or `d` when no record
/// names `n`.
pub open spec fn valor_final(regs: Seq<(Seq<char>, u32)>, n: Seq<char>, d: u32) -> u32
    decreases regs.len(),
{
    if regs.len() == 0 {
        d
    } else if regs.last().0 == n {
        regs.last().1
    } else {
        valor_final(regs.drop_last(), n, d)
    }
}

/// Every entry with its count set by the last record for its name.
pub open spec fn com_valores_finais(apps: Seq<VistaApp>, regs: Seq<(Seq<char>, u32)>) -> Seq<VistaApp> {
    apps.map_values(|a: VistaApp| (a.0, a.1, valor_final(regs, a.0, a.2)))
}

proof fn lemma_valor_final_idempotente(regs: Seq<(Seq<char>, u32)>, n: Seq<char>, d: u32)
    ensures
        valor_final(regs, n, valor_final(regs, n, d)) == valor_final(regs, n, d),
    decreases regs.len(),
{
    if regs.len() > 0 && regs.last().0 != n {
        lemma_valor_final_idempotente(regs.drop_last(), n, d);
    }
}

/// With distinct names, loading records sets the count of each entry to
/// the last record for its name, and leaves the others.
pub proof fn lemma_aplicar_nomes_distintos(apps: Seq<VistaApp>, regs: Seq<(Seq<char>, u32)>)
    requires
        nomes_distintos(apps),
    ensures
        aplicar_registros(apps, regs) == com_valores_finais(apps, regs),
    decreases regs.len(),
{
    if regs.len() == 0 {
        assert(com_valores_finais(apps, regs) =~= apps);
    } else {
        let ant = regs.drop_last();
        let r = regs.last();
        lemma_aplicar_nomes_distintos(apps, ant);
        let c = com_valores_finais(apps, ant);
        lemma_primeiro_com_nome(c, r.0, 0);
        let f = primeiro_com_nome(c, r.0, 0);
        if f < c.len() {
            assert(apps[f].0 == r.0);
            assert forall|i: int| 0 <= i < apps.len() && i != f implies #[trigger] apps[i].0 != r.0 by {
                assert(apps[i].0 != apps[f].0);
            }
            assert(definir_usos(c, r.0, r.1) =~= com_valores_finais(apps, regs));
        } else {
            assert forall|i: int| 0 <= i < apps.len() implies #[trigger] apps[i].0 != r.0 by {
                assert(c[i].0 == apps[i].0);
            }
            assert(c =~= com_valores_finais(apps, regs));
        }
    }
}

/// The count of the last entry named `n`, or 0 when none is.
pub open spec fn contagem_de(apps: Seq<VistaApp>, n: Seq<char>) -> u32
    decreases apps.len(),
{
    if apps.len() == 0 {
        0
    } else if apps.last().0 == n {
        apps.last().2
    } else {
        contagem_de(apps.drop_last(), n)
    }
}

proof fn lemma_contagem_ausente(apps: Seq<VistaApp>, n: Seq<char>)
    requires
        forall|i: int| 0 <= i < apps.len() ==> #[trigger] apps[i].0 != n,
    ensures
        contagem_de(apps, n) == 0,
    decreases apps.len(),
{
    if apps.len() > 0 {
        assert(apps[apps.len() - 1].0 != n);
        let ant = apps.drop_last();
        assert forall|i: int| 0 <= i < ant.len() implies #[trigger] ant[i].0 != n by {
            assert(ant[i] == apps[i]);
        }
        lemma_contagem_ausente(ant, n);
    }
}

proof fn lemma_valor_final_usados(apps0: Seq<VistaApp>, n: Seq<char>)
    requires
        nomes_distintos(apps0),
    ensures
        valor_final(usados(apps0), n, 0) == contagem_de(apps0, n),
    decreases apps0.len(),
{
    if apps0.len() > 0 {
        let ant = apps0.drop_last();
        let x = apps0.last();
        assert(x == apps0[apps0.len() - 1]);
        assert forall|i: int, j: int| 0 <= i < ant.len() && 0 <= j < ant.len() && i != j implies
            #[trigger] ant[i].0 != #[trigger] ant[j].0 by {
            assert(ant[i] == apps0[i] && ant[j] == apps0[j]);
        }
        lemma_valor_final_usados(ant, n);
        if x.2 > 0 {
            let u = usados(apps0);
            assert(u == usados(ant).push((x.0, x.2)));
            assert(u.drop_last() =~= usados(ant));
        } else if x.0 == n {
            assert forall|i: int| 0 <= i < ant.len() implies #[trigger] ant[i].0 != n by {
                assert(ant[i] == apps0[i]);
                assert(apps0[i].0 != apps0[apps0.len() - 1].0);
            }
            lemma_contagem_ausente(ant, n);
        }
    }
}

/// Counts survive a restart: the history that a catalogue with distinct
/// names saves, loaded into any catalogue with distinct names and no starts
/// counted, gives each entry the count of the saved entry with its name (0
/// when there is none), before and after the usage sort; provided every
/// started saved name holds no `'|'` and no line feed.
pub proof fn lei_historico_restaura_contagens(apps0: Seq<VistaApp>, apps: Seq<VistaApp>, r: Seq<VistaApp>)
    requires
        nomes_distintos(apps0),
        forall|i: int| 0 <= i < apps0.len() && #[trigger] apps0[i].2 > 0 ==> nome_gravavel(apps0[i].0),
        nomes_distintos(apps),
        forall|i: int| 0 <= i < apps.len() ==> #[trigger] apps[i].2 == 0,
        reordenado(
            apos_carregar(apps, texto_historico(apps0)),
            chaves_uso(apos_carregar(apps, texto_historico(apps0))),
            r,
        ),
    ensures
        apos_carregar(apps, texto_historico(apps0)) == apps.map_values(|a: VistaApp| (a.0, a.1, contagem_de(apps0, a.0))),
        r.len() == apps.len(),
        forall|i: int| 0 <= i < r.len() ==> #[trigger] r[i].2 == contagem_de(apps0, r[i].0),
{
    lei_historico_ida_e_volta(apps0);
    let regs = usados(apps0);
    lemma_aplicar_nomes_distintos(apps, regs);
    let b = apos_carregar(apps, texto_historico(apps0));
    assert forall|k: int| 0 <= k < apps.len() implies
        #[trigger] valor_final(regs, apps[k].0, apps[k].2) == contagem_de(apps0, apps[k].0) by {
        lemma_valor_final_usados(apps0, apps[k].0);
    }
    assert(b =~= apps.map_values(|a: VistaApp| (a.0, a.1, contagem_de(apps0, a.0))));
    let p = choose|p: Seq<usize>| #[trigger] crate::ordem::ordem_estavel(chaves_uso(b), p) && crate::ordem::permutado(b, p, r);
    assert forall|i: int| 0 <= i < r.len() implies #[trigger] r[i].2 == contagem_de(apps0, r[i].0) by {
        assert(r[i] == b[p[i] as int]);
    }
}

/// Loading the same history twice leaves the catalogue as loading it once
/// does, when the names are distinct.
pub proof fn lei_carregar_duas_vezes(apps: Seq<VistaApp>, conteudo: Seq<char>, a1: Seq<VistaApp>, a2: Seq<VistaApp>)
    requires
        nomes_distintos(apps),
        apps.len() <= usize::MAX,
        reordenado(apos_carregar(apps, conteudo), chaves_uso(apos_carregar(apps, conteudo)), a1),
        reordenado(apos_carregar(a1, conteudo), chaves_uso(apos_carregar(a1, conteudo)), a2),
    ensures
        a2 == a1,
{
    let regs = registros(linhas(conteudo));
    lemma_aplicar_nomes_distintos(apps, regs);
    let b = apos_carregar(apps, conteudo);
    let kb = chaves_uso(b);
    let p1 = choose|p: Seq<usize>| #[trigger] crate::ordem::ordem_estavel(kb, p) && crate::ordem::permutado(b, p, a1);
    assert forall|i: int, j: int| 0 <= i < j < p1.len() implies #[trigger] p1[i] != #[trigger] p1[j] by {
        crate::ordem::lei_ordem_estavel_injetiva(kb, p1, i, j);
    }
    // a1 keeps distinct names
    assert forall|i: int, j: int| 0 <= i < a1.len() && 0 <= j < a1.len() && i != j implies
        #[trigger] a1[i].0 != #[trigger] a1[j].0 by {
        assert(a1[i] == b[p1[i] as int] && a1[j] == b[p1[j] as int]);
        if i < j {
            assert(p1[i] != p1[j]);
        } else {
            assert(p1[j] != p1[i]);
        }
        assert(b[p1[i] as int].0 == apps[p1[i] as int].0);
        assert(b[p1[j] as int].0 == apps[p1[j] as int].0);
    }
    // loading again changes nothing
    lemma_aplicar_nomes_distintos(a1, regs);
    assert forall|i: int| 0 <= i < a1.len() implies
        #[trigger] valor_final(regs, a1[i].0, a1[i].2) == a1[i].2 by {
        let k = p1[i] as int;
        assert(a1[i] == b[k]);
        lemma_valor_final_idempotente(regs, apps[k].0, apps[k].2);
    }
    assert(apos_carregar(a1, conteudo) =~= a1);
    // and a1 is already in order
    let k1 = chaves_uso(a1);
    let id = Seq::new(a1.len(), |i: int| i as usize);
    assert(crate::ordem::ordem_estavel(k1, id)) by {
        assert forall|v: usize| v < k1.len() implies #[trigger] id.contains(v) by {
            assert(id[v as int] == v);
        }
        assert forall|i: int, j: int| 0 <= i < j < id.len() implies
            crate::ordem::vem_antes(k1, #[trigger] id[i] as int, #[trigger] id[j] as int) by {
            assert(crate::ordem::vem_antes(kb, p1[i] as int, p1[j] as int));
            assert(k1[i] == kb[p1[i] as int]);
            assert(k1[j] == kb[p1[j] as int]);
        }
    }
    assert(crate::ordem::permutado(a1, id, a1));
    assert(reordenado(a1, k1, a1));
    crate::ordem::lei_reordenado_unico(a1, k1, a1, a2);
}

} // verus!
