//! Text primitives over sequences of characters: the line, whitespace,
//! substitution and ordering rules that the rest of the library builds on.

use vstd::prelude::*;

verus! {

/// What `str::to_lowercase` gives back for a string (Unicode lowercase
/// mapping of the whole string).
pub uninterp spec fn minusculas(s: Seq<char>) -> Seq<char>;

/// The Unicode `White_Space` property (Unicode's `PropList.txt`), which
/// `char::is_whitespace` tests.
pub open spec fn espaco_branco(c: char) -> bool {
    let v = c as u32;
    ||| 0x09 <= v <= 0x0D
    ||| v == 0x20
    ||| v == 0x85
    ||| v == 0xA0
    ||| v == 0x1680
    ||| 0x2000 <= v <= 0x200A
    ||| v == 0x2028
    ||| v == 0x2029
    ||| v == 0x202F
    ||| v == 0x205F
    ||| v == 0x3000
}

/// Calls `str::to_lowercase`; the result is named `minusculas` of the input.
/// Beyond that it is only claimed that the result is empty exactly when the
/// input is (every character lowercases to one or more characters); the
/// Unicode mapping itself is not stated.
#[verifier::external_body]
pub(crate) fn para_minusculas(s: &str) -> (r: String)
    ensures
        r@ == minusculas(s@),
        (r@.len() == 0) == (s@.len() == 0),
{
    s.to_lowercase()
}

/// Whether a character is whitespace (`char::is_whitespace`).
pub fn eh_espaco(c: char) -> (r: bool)
    ensures
        r == espaco_branco(c),
{
    let v = c as u32;
    (0x09 <= v && v <= 0x0D) || v == 0x20 || v == 0x85 || v == 0xA0 || v == 0x1680 || (0x2000 <= v && v
        <= 0x200A) || v == 0x2028 || v == 0x2029 || v == 0x202F || v == 0x205F || v == 0x3000
}

/// `String::push` appends one character at the end of the string.
pub assume_specification[ String::push ](s: &mut String, ch: char)
    ensures
        final(s)@ == old(s)@.push(ch),
;

/// The characters of a string, in order.
pub fn caracteres(s: &str) -> (r: Vec<char>)
    ensures
        r@ == s@,
{
    let mut r: Vec<char> = Vec::new();
    for c in it: s.chars()
        invariant
            r@ == it.seq().take(it.index() as int),
            it.seq() == s@,
    {
        r.push(c);
    }
    r
}

/// A string holding exactly the given characters.
pub fn texto_de(v: &Vec<char>) -> (r: String)
    ensures
        r@ == v@,
{
    let mut r = String::new();
    let mut i: usize = 0;
    while i < v.len()
        invariant
            i <= v.len(),
            r@ == v@.take(i as int),
        decreases v.len() - i,
    {
        r.push(v[i]);
        i = i + 1;
        assert(r@ =~= v@.take(i as int));
    }
    assert(v@.take(i as int) =~= v@);
    r
}

/// The lowercase characters of a string.
pub fn minusculas_de(s: &str) -> (r: Vec<char>)
    ensures
        r@ == minusculas(s@),
        (r@.len() == 0) == (s@.len() == 0),
{
    let m = para_minusculas(s);
    caracteres(m.as_str())
}

/// First index at or after `pos` where `c` occurs in `s`, or `s.len()` when
/// there is none.
pub open spec fn proxima(s: Seq<char>, c: char, pos: int) -> int
    decreases s.len() - pos,
{
    if pos >= s.len() {
        s.len() as int
    } else if s[pos] == c {
        pos
    } else {
        proxima(s, c, pos + 1)
    }
}

pub proof fn lemma_proxima(s: Seq<char>, c: char, pos: int)
    requires
        0 <= pos <= s.len(),
    ensures
        pos <= proxima(s, c, pos) <= s.len(),
        proxima(s, c, pos) < s.len() ==> s[proxima(s, c, pos)] == c,
        forall|k: int| pos <= k < proxima(s, c, pos) ==> s[k] != c,
    decreases s.len() - pos,
{
    if pos < s.len() && s[pos] != c {
        lemma_proxima(s, c, pos + 1);
    }
}

/// A line without the carriage return that preceded its line feed.
pub open spec fn sem_cr(l: Seq<char>) -> Seq<char> {
    if l.len() > 0 && l.last() == '\r' {
        l.drop_last()
    } else {
        l
    }
}

/// The lines of `s` from index `ini` on, as `str::lines` yields them: split
/// at each `'\n'`, a `'\r'` just before a `'\n'` removed, and no empty last
/// line after a final `'\n'`.
pub open spec fn linhas_de(s: Seq<char>, ini: int) -> Seq<Seq<char>>
    decreases s.len() - ini,
{
    if ini < 0 || ini >= s.len() {
        seq![]
    } else {
        let k = proxima(s, '\n', ini);
        if k >= s.len() {
            seq![s.subrange(ini, s.len() as int)]
        } else {
            proof {
                lemma_proxima(s, '\n', ini);
            }
            seq![sem_cr(s.subrange(ini, k))] + linhas_de(s, k + 1)
        }
    }
}

pub open spec fn linhas(s: Seq<char>) -> Seq<Seq<char>> {
    linhas_de(s, 0)
}

/// The lines of a text, as `str::lines` splits it.
pub fn linhas_do_texto(s: &Vec<char>) -> (r: Vec<Vec<char>>)
    ensures
        vistas(r@) == linhas(s@),
{
    let mut r: Vec<Vec<char>> = Vec::new();
    let mut atual: Vec<char> = Vec::new();
    let mut ini: usize = 0;
    let mut i: usize = 0;
    while i < s.len()
        invariant
            ini <= i <= s.len(),
            atual@ == s@.subrange(ini as int, i as int),
            forall|k: int| ini <= k < i ==> s@[k] != '\n',
            vistas(r@) + linhas_de(s@, ini as int) == linhas(s@),
        decreases s.len() - i,
    {
        if s[i] == '\n' {
            proof {
                lemma_proxima(s@, '\n', ini as int);
                lemma_proxima_sem(s@, '\n', ini as int, i as int);
            }
            let mut linha = atual;
            if linha.len() > 0 && linha[linha.len() - 1] == '\r' {
                linha.pop();
            }
            assert(linha@ == sem_cr(s@.subrange(ini as int, i as int)));
            let ghost antes = vistas(r@);
            r.push(linha);
            assert(vistas(r@) =~= antes.push(linha@));
            atual = Vec::new();
            i = i + 1;
            ini = i;
            assert(atual@ =~= s@.subrange(ini as int, i as int));
        } else {
            atual.push(s[i]);
            i = i + 1;
            assert(atual@ =~= s@.subrange(ini as int, i as int));
        }
    }
    proof {
        lemma_proxima_sem(s@, '\n', ini as int, s@.len() as int);
    }
    if ini < s.len() {
        let ghost antes = vistas(r@);
        r.push(atual);
        assert(vistas(r@) =~= antes.push(s@.subrange(ini as int, s@.len() as int)));
    }
    assert(vistas(r@) =~= linhas(s@));
    r
}

/// The character sequences held by a list of character vectors.
pub open spec fn vistas(v: Seq<Vec<char>>) -> Seq<Seq<char>> {
    v.map_values(|x: Vec<char>| x@)
}

/// When `c` does not occur in `s[pos..end]` and `end` holds `c` or is the
/// end, `proxima` finds `end`.
pub proof fn lemma_proxima_sem(s: Seq<char>, c: char, pos: int, end: int)
    requires
        0 <= pos <= end <= s.len(),
        forall|k: int| pos <= k < end ==> s[k] != c,
        end < s.len() ==> s[end] == c,
    ensures
        proxima(s, c, pos) == end,
    decreases end - pos,
{
    if pos < end {
        lemma_proxima_sem(s, c, pos + 1, end);
    }
}

/// Whether `s` begins with `p`.
pub open spec fn comeca_com(s: Seq<char>, p: Seq<char>) -> bool {
    p.len() <= s.len() && s.subrange(0, p.len() as int) == p
}

/// Whether `p` occurs in `s` at index `i`.
pub open spec fn ocorre_em(s: Seq<char>, p: Seq<char>, i: int) -> bool {
    0 <= i && i + p.len() <= s.len() && s.subrange(i, i + p.len()) == p
}

/// `str::replace`: every occurrence of the non-empty pattern `p`, taken
/// from left to right without overlap, replaced by `t`.
pub open spec fn substituir(s: Seq<char>, p: Seq<char>, t: Seq<char>) -> Seq<char>
    decreases s.len(),
{
    if s.len() == 0 {
        seq![]
    } else if p.len() > 0 && comeca_com(s, p) {
        t + substituir(s.subrange(p.len() as int, s.len() as int), p, t)
    } else {
        seq![s[0]] + substituir(s.drop_first(), p, t)
    }
}

/// Whether `p` occurs in `s` at index `i` (checked character by character).
pub fn ocorre_exec(s: &Vec<char>, p: &Vec<char>, i: usize) -> (r: bool)
    requires
        i <= s.len(),
    ensures
        r == ocorre_em(s@, p@, i as int),
{
    if p.len() > s.len() - i {
        return false;
    }
    let mut k: usize = 0;
    while k < p.len()
        invariant
            k <= p.len(),
            i + p.len() <= s.len(),
            forall|j: int| 0 <= j < k ==> s@[i + j] == p@[j],
        decreases p.len() - k,
    {
        if s[i + k] != p[k] {
            assert(s@.subrange(i as int, i + p.len())[k as int] != p@[k as int]);
            return false;
        }
        k = k + 1;
    }
    assert(s@.subrange(i as int, i + p.len()) =~= p@);
    true
}

/// `str::replace` of a non-empty pattern.
pub fn substituir_exec(s: &Vec<char>, p: &Vec<char>, t: &Vec<char>) -> (r: Vec<char>)
    requires
        p.len() > 0,
    ensures
        r@ == substituir(s@, p@, t@),
{
    let mut r: Vec<char> = Vec::new();
    let mut i: usize = 0;
    assert(s@.subrange(0, s@.len() as int) =~= s@);
    assert(r@ + substituir(s@, p@, t@) =~= substituir(s@, p@, t@));
    while i < s.len()
        invariant
            i <= s.len(),
            p@.len() > 0,
            r@ + substituir(s@.subrange(i as int, s@.len() as int), p@, t@) == substituir(s@, p@, t@),
        decreases s.len() - i,
    {
        let ghost resto = s@.subrange(i as int, s@.len() as int);
        if ocorre_exec(s, p, i) {
            assert(resto.subrange(0, p@.len() as int) =~= s@.subrange(i as int, i + p@.len()));
            assert(resto.subrange(p@.len() as int, resto.len() as int) =~= s@.subrange(i + p@.len(), s@.len() as int));
            let ghost antes = r@;
            let mut k: usize = 0;
            while k < t.len()
                invariant
                    k <= t.len(),
                    r@ == antes + t@.subrange(0, k as int),
                decreases t.len() - k,
            {
                r.push(t[k]);
                k = k + 1;
                assert(r@ =~= antes + t@.subrange(0, k as int));
            }
            assert(t@.subrange(0, k as int) =~= t@);
            assert(antes + (t@ + substituir(resto.subrange(p@.len() as int, resto.len() as int), p@, t@))
                =~= r@ + substituir(resto.subrange(p@.len() as int, resto.len() as int), p@, t@));
            i = i + p.len();
        } else {
            assert(!comeca_com(resto, p@)) by {
                if p@.len() <= resto.len() {
                    assert(resto.subrange(0, p@.len() as int) =~= s@.subrange(i as int, i + p@.len()));
                }
            }
            assert(resto.drop_first() =~= s@.subrange(i + 1, s@.len() as int));
            let ghost antes = r@;
            r.push(s[i]);
            assert(antes + (seq![s@[i as int]] + substituir(resto.drop_first(), p@, t@))
                =~= r@ + substituir(resto.drop_first(), p@, t@));
            i = i + 1;
        }
    }
    assert(s@.subrange(i as int, s@.len() as int) =~= seq![]);
    assert(r@ + seq![] =~= r@);
    r
}

/// First index at or after `i` that does not hold whitespace (or the end).
pub open spec fn pular_espacos(s: Seq<char>, i: int) -> int
    decreases s.len() - i,
{
    if i >= s.len() {
        s.len() as int
    } else if espaco_branco(s[i]) {
        pular_espacos(s, i + 1)
    } else {
        i
    }
}

/// First index at or after `i` that holds whitespace (or the end).
pub open spec fn fim_palavra(s: Seq<char>, i: int) -> int
    decreases s.len() - i,
{
    if i >= s.len() {
        s.len() as int
    } else if espaco_branco(s[i]) {
        i
    } else {
        fim_palavra(s, i + 1)
    }
}

/// One past the last index before `j` that does not hold whitespace (or 0).
pub open spec fn recuar_espacos(s: Seq<char>, j: int) -> int
    decreases j,
{
    if j <= 0 {
        0
    } else if espaco_branco(s[j - 1]) {
        recuar_espacos(s, j - 1)
    } else {
        j
    }
}

pub proof fn lemma_pular_espacos(s: Seq<char>, i: int)
    requires
        0 <= i <= s.len(),
    ensures
        i <= pular_espacos(s, i) <= s.len(),
        pular_espacos(s, i) < s.len() ==> !espaco_branco(s[pular_espacos(s, i)]),
        forall|k: int| i <= k < pular_espacos(s, i) ==> espaco_branco(s[k]),
    decreases s.len() - i,
{
    if i < s.len() && espaco_branco(s[i]) {
        lemma_pular_espacos(s, i + 1);
    }
}

pub proof fn lemma_fim_palavra(s: Seq<char>, i: int)
    requires
        0 <= i <= s.len(),
    ensures
        i <= fim_palavra(s, i) <= s.len(),
        fim_palavra(s, i) < s.len() ==> espaco_branco(s[fim_palavra(s, i)]),
        forall|k: int| i <= k < fim_palavra(s, i) ==> !espaco_branco(s[k]),
    decreases s.len() - i,
{
    if i < s.len() && !espaco_branco(s[i]) {
        lemma_fim_palavra(s, i + 1);
    }
}

pub proof fn lemma_recuar_espacos(s: Seq<char>, j: int)
    requires
        0 <= j <= s.len(),
    ensures
        0 <= recuar_espacos(s, j) <= j,
        recuar_espacos(s, j) > 0 ==> !espaco_branco(s[recuar_espacos(s, j) - 1]),
        forall|k: int| recuar_espacos(s, j) <= k < j ==> espaco_branco(s[k]),
    decreases j,
{
    if j > 0 && espaco_branco(s[j - 1]) {
        lemma_recuar_espacos(s, j - 1);
    }
}

/// `str::trim`: the text without its leading and trailing whitespace.
pub open spec fn aparar(s: Seq<char>) -> Seq<char> {
    let a = pular_espacos(s, 0);
    let b = recuar_espacos(s, s.len() as int);
    if a < b {
        s.subrange(a, b)
    } else {
        seq![]
    }
}

/// `str::trim`.
pub fn aparar_exec(s: &Vec<char>) -> (r: Vec<char>)
    ensures
        r@ == aparar(s@),
{
    let mut a: usize = 0;
    while a < s.len() && eh_espaco(s[a])
        invariant
            a <= s.len(),
            pular_espacos(s@, 0) == pular_espacos(s@, a as int),
        decreases s.len() - a,
    {
        a = a + 1;
    }
    let mut b: usize = s.len();
    while b > 0 && eh_espaco(s[b - 1])
        invariant
            b <= s.len(),
            recuar_espacos(s@, s@.len() as int) == recuar_espacos(s@, b as int),
        decreases b,
    {
        b = b - 1;
    }
    let mut r: Vec<char> = Vec::new();
    if a < b {
        let mut k: usize = a;
        while k < b
            invariant
                a <= k <= b <= s.len(),
                r@ == s@.subrange(a as int, k as int),
            decreases b - k,
        {
            r.push(s[k]);
            k = k + 1;
            assert(r@ =~= s@.subrange(a as int, k as int));
        }
    }
    proof {
        assert(r@ =~= aparar(s@));
    }
    r
}

/// The whitespace-separated words of `s` from index `i` on, as
/// `str::split_whitespace` yields them.
pub open spec fn palavras_de(s: Seq<char>, i: int) -> Seq<Seq<char>>
    decreases s.len() - i,
{
    if i < 0 || i > s.len() {
        seq![]
    } else {
        let a = pular_espacos(s, i);
        if a >= s.len() {
            seq![]
        } else {
            proof {
                lemma_pular_espacos(s, i);
                lemma_fim_palavra(s, a);
            }
            let b = fim_palavra(s, a);
            seq![s.subrange(a, b)] + palavras_de(s, b)
        }
    }
}

pub open spec fn palavras(s: Seq<char>) -> Seq<Seq<char>> {
    palavras_de(s, 0)
}

/// The first word of `s`, or nothing when it holds none
/// (`split_whitespace().next().unwrap_or("")`).
pub open spec fn primeira_palavra(s: Seq<char>) -> Seq<char> {
    if palavras(s).len() > 0 {
        palavras(s)[0]
    } else {
        seq![]
    }
}

/// `str::split_whitespace`, collected.
pub fn palavras_exec(s: &Vec<char>) -> (r: Vec<Vec<char>>)
    ensures
        vistas(r@) == palavras(s@),
{
    let mut r: Vec<Vec<char>> = Vec::new();
    let mut i: usize = 0;
    while i < s.len()
        invariant
            i <= s.len(),
            vistas(r@) + palavras_de(s@, i as int) == palavras(s@),
        decreases s.len() - i,
    {
        let ghost i0 = i as int;
        proof {
            lemma_pular_espacos(s@, i0);
        }
        let mut a: usize = i;
        while a < s.len() && eh_espaco(s[a])
            invariant
                i <= a <= s.len(),
                pular_espacos(s@, i0) == pular_espacos(s@, a as int),
            decreases s.len() - a,
        {
            a = a + 1;
        }
        if a >= s.len() {
            i = a;
            assert(palavras_de(s@, i0) =~= seq![]);
            assert(palavras_de(s@, i as int) =~= seq![]);
        } else {
            proof {
                lemma_fim_palavra(s@, a as int);
            }
            let mut w: Vec<char> = Vec::new();
            let mut b: usize = a;
            while b < s.len() && !eh_espaco(s[b])
                invariant
                    a <= b <= s.len(),
                    fim_palavra(s@, a as int) == fim_palavra(s@, b as int),
                    w@ == s@.subrange(a as int, b as int),
                decreases s.len() - b,
            {
                w.push(s[b]);
                b = b + 1;
                assert(w@ =~= s@.subrange(a as int, b as int));
            }
            let ghost antes = vistas(r@);
            r.push(w);
            assert(vistas(r@) =~= antes.push(s@.subrange(a as int, b as int)));
            assert(antes + palavras_de(s@, i0) =~= vistas(r@) + palavras_de(s@, b as int));
            i = b;
        }
    }
    assert(palavras_de(s@, i as int) =~= seq![]);
    assert(vistas(r@) + seq![] =~= vistas(r@));
    r
}

/// Lexicographic order of character sequences from index `i` on, comparing
/// characters by their code points (the order of `String::cmp`).
pub open spec fn lex_de(a: Seq<char>, b: Seq<char>, i: int) -> bool
    decreases a.len() - i,
{
    if i < 0 {
        false
    } else if i >= a.len() {
        i < b.len()
    } else if i >= b.len() {
        false
    } else if a[i] != b[i] {
        a[i] < b[i]
    } else {
        lex_de(a, b, i + 1)
    }
}

/// `a` comes strictly before `b` in lexicographic order.
pub open spec fn lex_menor(a: Seq<char>, b: Seq<char>) -> bool {
    lex_de(a, b, 0)
}

pub proof fn lemma_lex_irreflexivo(a: Seq<char>, i: int)
    requires
        0 <= i,
    ensures
        !lex_de(a, a, i),
    decreases a.len() - i,
{
    if i < a.len() {
        lemma_lex_irreflexivo(a, i + 1);
    }
}

pub proof fn lemma_lex_transitivo(a: Seq<char>, b: Seq<char>, c: Seq<char>, i: int)
    requires
        0 <= i,
        lex_de(a, b, i),
        lex_de(b, c, i),
    ensures
        lex_de(a, c, i),
    decreases a.len() - i,
{
    if i < a.len() && i < b.len() && i < c.len() && a[i] == b[i] && b[i] == c[i] {
        lemma_lex_transitivo(a, b, c, i + 1);
    }
}

pub proof fn lemma_lex_total(a: Seq<char>, b: Seq<char>, i: int)
    requires
        0 <= i <= a.len(),
        i <= b.len(),
        a.subrange(0, i) == b.subrange(0, i),
        a != b,
    ensures
        lex_de(a, b, i) || lex_de(b, a, i),
    decreases a.len() - i,
{
    if i < a.len() && i < b.len() && a[i] == b[i] {
        assert(a.subrange(0, i + 1) =~= a.subrange(0, i).push(a[i]));
        assert(b.subrange(0, i + 1) =~= b.subrange(0, i).push(b[i]));
        lemma_lex_total(a, b, i + 1);
    } else if i == a.len() && i == b.len() {
        assert(a =~= a.subrange(0, i));
        assert(b =~= b.subrange(0, i));
    }
}

/// Whether `a` comes strictly before `b` in lexicographic order.
pub fn lex_menor_exec(a: &Vec<char>, b: &Vec<char>) -> (r: bool)
    ensures
        r == lex_menor(a@, b@),
{
    let mut i: usize = 0;
    while i < a.len() && i < b.len() && a[i] == b[i]
        invariant
            i <= a.len(),
            i <= b.len(),
            lex_de(a@, b@, 0) == lex_de(a@, b@, i as int),
        decreases a.len() - i,
    {
        i = i + 1;
    }
    if i >= a.len() {
        i < b.len()
    } else if i >= b.len() {
        false
    } else {
        a[i] < b[i]
    }
}

/// Whether two character sequences are equal.
pub fn iguais(a: &Vec<char>, b: &Vec<char>) -> (r: bool)
    ensures
        r == (a@ == b@),
{
    if a.len() != b.len() {
        return false;
    }
    let mut i: usize = 0;
    while i < a.len()
        invariant
            i <= a.len(),
            a.len() == b.len(),
            forall|k: int| 0 <= k < i ==> a@[k] == b@[k],
        decreases a.len() - i,
    {
        if a[i] != b[i] {
            return false;
        }
        i = i + 1;
    }
    assert(a@ =~= b@);
    true
}

/// Number of bytes of the UTF-8 encoding of a character (`char::len_utf8`).
pub open spec fn largura_utf8(c: char) -> nat {
    if (c as u32) < 0x80 {
        1
    } else if (c as u32) < 0x800 {
        2
    } else if (c as u32) < 0x10000 {
        3
    } else {
        4
    }
}

/// Number of bytes of the UTF-8 encoding of a character sequence.
pub open spec fn bytes_utf8(s: Seq<char>) -> nat
    decreases s.len(),
{
    if s.len() == 0 {
        0
    } else {
        bytes_utf8(s.drop_last()) + largura_utf8(s.last())
    }
}

/// `char::len_utf8`.
pub fn largura_utf8_exec(c: char) -> (r: u32)
    ensures
        r == largura_utf8(c),
        1 <= r <= 4,
{
    let v = c as u32;
    if v < 0x80 {
        1
    } else if v < 0x800 {
        2
    } else if v < 0x10000 {
        3
    } else {
        4
    }
}

/// `p` occurs nowhere in `s`.
pub open spec fn sem_ocorrencia(s: Seq<char>, p: Seq<char>) -> bool {
    forall|i: int| !#[trigger] ocorre_em(s, p, i)
}

/// Replacing a pattern that does not occur changes nothing.
pub proof fn lemma_substituir_sem_ocorrencia(s: Seq<char>, p: Seq<char>, t: Seq<char>)
    requires
        p.len() > 0,
        sem_ocorrencia(s, p),
    ensures
        substituir(s, p, t) == s,
    decreases s.len(),
{
    if s.len() > 0 {
        assert(!ocorre_em(s, p, 0));
        if p.len() <= s.len() {
            assert(s.subrange(0, p.len() as int) == s.subrange(0int, 0int + p.len()));
        }
        let r = s.drop_first();
        assert forall|i: int| !#[trigger] ocorre_em(r, p, i) by {
            if ocorre_em(r, p, i) {
                assert(s.subrange(i + 1, i + 1 + p.len()) =~= r.subrange(i, i + p.len()));
                assert(ocorre_em(s, p, i + 1));
            }
        }
        lemma_substituir_sem_ocorrencia(r, p, t);
        assert(seq![s[0]] + r =~= s);
    }
}

/// A character that cannot start the pattern, put in front of a text
/// without the pattern, adds no occurrence.
pub proof fn lemma_sem_ocorrencia_na_frente(c: char, x: Seq<char>, p: Seq<char>)
    requires
        p.len() > 0,
        p[0] != c,
        sem_ocorrencia(x, p),
    ensures
        sem_ocorrencia(seq![c] + x, p),
{
    let s = seq![c] + x;
    assert forall|i: int| !#[trigger] ocorre_em(s, p, i) by {
        if ocorre_em(s, p, i) {
            if i == 0 {
                assert(s.subrange(0, p.len() as int)[0] == p[0]);
            } else {
                assert(x.subrange(i - 1, i - 1 + p.len()) =~= s.subrange(i, i + p.len()));
                assert(ocorre_em(x, p, i - 1));
            }
        }
    }
}

/// A character that cannot end a two-character pattern, put after a text
/// without the pattern, adds no occurrence.
pub proof fn lemma_sem_ocorrencia_atras(x: Seq<char>, c: char, p: Seq<char>)
    requires
        p.len() == 2,
        p[1] != c,
        sem_ocorrencia(x, p),
    ensures
        sem_ocorrencia(x + seq![c], p),
{
    let s = x + seq![c];
    assert forall|i: int| !#[trigger] ocorre_em(s, p, i) by {
        if ocorre_em(s, p, i) {
            if i + 2 == s.len() {
                assert(s.subrange(i, i + 2)[1] == p[1]);
            } else {
                assert(x.subrange(i, i + p.len()) =~= s.subrange(i, i + p.len()));
                assert(ocorre_em(x, p, i));
            }
        }
    }
}

/// Replacing a pattern at the very start of a text.
pub proof fn lemma_substituir_no_inicio(p: Seq<char>, x: Seq<char>, t: Seq<char>)
    requires
        p.len() > 0,
    ensures
        substituir(p + x, p, t) == t + substituir(x, p, t),
{
    let s = p + x;
    assert(s.subrange(0, p.len() as int) =~= p);
    assert(s.subrange(p.len() as int, s.len() as int) =~= x);
}

/// Replacing a pattern in a text whose first character cannot start it.
pub proof fn lemma_substituir_primeiro_fica(c: char, x: Seq<char>, p: Seq<char>, t: Seq<char>)
    requires
        p.len() > 0,
        p[0] != c,
    ensures
        substituir(seq![c] + x, p, t) == seq![c] + substituir(x, p, t),
{
    let s = seq![c] + x;
    if p.len() <= s.len() {
        assert(s.subrange(0, p.len() as int)[0] == c);
    }
    assert(s.drop_first() =~= x);
}

/// Trimming a space in front of a text that neither starts nor ends with
/// whitespace gives the text.
pub proof fn lemma_aparar_espaco_inicial(x: Seq<char>)
    requires
        x.len() > 0 ==> !espaco_branco(x[0]) && !espaco_branco(x.last()),
    ensures
        aparar(seq![' '] + x) == x,
{
    let s = seq![' '] + x;
    assert(espaco_branco(' '));
    if x.len() == 0 {
        assert(pular_espacos(s, 1) == 1);
        assert(pular_espacos(s, 0) == 1);
        assert(recuar_espacos(s, 0) == 0);
        assert(recuar_espacos(s, 1) == 0);
        assert(aparar(s) =~= x);
    } else {
        assert(s[1] == x[0]);
        assert(pular_espacos(s, 1) == 1);
        assert(pular_espacos(s, 0) == 1);
        assert(s[s.len() - 1] == x.last());
        assert(recuar_espacos(s, s.len() as int) == s.len());
        assert(s.subrange(1, s.len() as int) =~= x);
    }
}

proof fn lemma_pular_deslocado(x: Seq<char>, s: Seq<char>, i: int)
    requires
        0 <= i <= s.len(),
    ensures
        pular_espacos(x + s, x.len() + i) == x.len() + pular_espacos(s, i),
    decreases s.len() - i,
{
    if i < s.len() {
        assert((x + s)[x.len() + i] == s[i]);
        if espaco_branco(s[i]) {
            lemma_pular_deslocado(x, s, i + 1);
        }
    }
}

proof fn lemma_fim_deslocado(x: Seq<char>, s: Seq<char>, i: int)
    requires
        0 <= i <= s.len(),
    ensures
        fim_palavra(x + s, x.len() + i) == x.len() + fim_palavra(s, i),
    decreases s.len() - i,
{
    if i < s.len() {
        assert((x + s)[x.len() + i] == s[i]);
        if !espaco_branco(s[i]) {
            lemma_fim_deslocado(x, s, i + 1);
        }
    }
}

proof fn lemma_palavras_deslocadas(x: Seq<char>, s: Seq<char>, i: int)
    requires
        0 <= i <= s.len(),
    ensures
        palavras_de(x + s, x.len() + i) == palavras_de(s, i),
    decreases s.len() - i,
{
    lemma_pular_deslocado(x, s, i);
    lemma_pular_espacos(s, i);
    let a = pular_espacos(s, i);
    if a < s.len() {
        lemma_fim_deslocado(x, s, a);
        lemma_fim_palavra(s, a + 1);
        let b = fim_palavra(s, a);
        assert(b == fim_palavra(s, a + 1));
        assert((x + s).subrange(x.len() + a, x.len() + b) =~= s.subrange(a, b));
        lemma_palavras_deslocadas(x, s, b);
    }
}

proof fn lemma_fim_da_palavra(w: Seq<char>, s: Seq<char>, k: int)
    requires
        0 <= k <= w.len(),
        forall|j: int| 0 <= j < w.len() ==> !espaco_branco(#[trigger] w[j]),
        s.len() == 0 || espaco_branco(s[0]),
    ensures
        fim_palavra(w + s, k) == w.len(),
    decreases w.len() - k,
{
    if k < w.len() {
        assert((w + s)[k] == w[k]);
        lemma_fim_da_palavra(w, s, k + 1);
    } else if s.len() > 0 {
        assert((w + s)[k] == s[0]);
    }
}

/// How a text splits into whitespace-separated words: an empty text has
/// none; whitespace in front is skipped; and a non-empty run without
/// whitespace that ends the text or stands before whitespace is the first
/// word, the rest splitting on its own.
pub proof fn lei_palavras(c: char, w: Seq<char>, s: Seq<char>)
    ensures
        palavras(Seq::<char>::empty()) == Seq::<Seq<char>>::empty(),
        espaco_branco(c) ==> palavras(seq![c] + s) == palavras(s),
        w.len() > 0 && (forall|j: int| 0 <= j < w.len() ==> !espaco_branco(#[trigger] w[j])) && (s.len() == 0
            || espaco_branco(s[0])) ==> palavras(w + s) == seq![w] + palavras(s),
{
    assert(palavras(Seq::<char>::empty()) =~= Seq::<Seq<char>>::empty());
    if espaco_branco(c) {
        let t = seq![c] + s;
        assert(t[0] == c);
        assert(pular_espacos(t, 0) == pular_espacos(t, 1));
        assert(palavras_de(t, 0) == palavras_de(t, 1));
        lemma_palavras_deslocadas(seq![c], s, 0);
    }
    if w.len() > 0 && (forall|j: int| 0 <= j < w.len() ==> !espaco_branco(#[trigger] w[j])) && (s.len() == 0
        || espaco_branco(s[0])) {
        let t = w + s;
        assert(t[0] == w[0]);
        assert(pular_espacos(t, 0) == 0);
        lemma_fim_da_palavra(w, s, 0);
        assert(t.subrange(0, w.len() as int) =~= w);
        lemma_palavras_deslocadas(w, s, 0);
        assert(palavras_de(t, w.len() as int) == palavras(s));
    }
}

/// `a` and `b` agree before index `k`, and at `k` either `a` ends while `b`
/// goes on, or both go on and `a` holds the smaller character.
spec fn diferem_em(a: Seq<char>, b: Seq<char>, k: int) -> bool {
    &&& 0 <= k <= a.len()
    &&& k <= b.len()
    &&& a.subrange(0, k) == b.subrange(0, k)
    &&& k < b.len()
    &&& k < a.len() ==> a[k] < b[k]
}

proof fn lemma_lex_diferenca(a: Seq<char>, b: Seq<char>, i: int)
    requires
        0 <= i <= a.len(),
        i <= b.len(),
        a.subrange(0, i) == b.subrange(0, i),
    ensures
        lex_de(a, b, i) <==> exists|k: int| i <= k && #[trigger] diferem_em(a, b, k),
    decreases a.len() - i,
{
    if i == a.len() {
        if lex_de(a, b, i) {
            assert(diferem_em(a, b, i));
        }
    } else if i == b.len() {
        assert forall|k: int| i <= k implies !#[trigger] diferem_em(a, b, k) by {}
    } else if a[i] != b[i] {
        if lex_de(a, b, i) {
            assert(diferem_em(a, b, i));
        }
        assert forall|k: int| i <= k && #[trigger] diferem_em(a, b, k) implies lex_de(a, b, i) by {
            if k > i {
                assert(a.subrange(0, k)[i] == b.subrange(0, k)[i]);
            }
        }
    } else {
        assert(a.subrange(0, i + 1) =~= b.subrange(0, i + 1)) by {
            assert forall|j: int| 0 <= j < i + 1 implies #[trigger] a.subrange(0, i + 1)[j] == b.subrange(0, i + 1)[j] by {
                if j < i {
                    assert(a.subrange(0, i)[j] == b.subrange(0, i)[j]);
                }
            }
        }
        lemma_lex_diferenca(a, b, i + 1);
        assert forall|k: int| i <= k && #[trigger] diferem_em(a, b, k) implies i + 1 <= k by {}
    }
}

/// The order names are sorted by: `a` comes strictly before `b` exactly
/// when, after a common beginning, either `a` ends and `b` goes on, or the
/// next character of `a` has a smaller code point than that of `b`.
pub proof fn lei_ordem_lexicografica(a: Seq<char>, b: Seq<char>)
    ensures
        lex_menor(a, b) <==> exists|k: int| {
            &&& 0 <= k <= a.len()
            &&& k < b.len()
            &&& #[trigger] a.subrange(0, k) == b.subrange(0, k)
            &&& k < a.len() ==> a[k] < b[k]
        },
{
    assert(a.subrange(0, 0) =~= b.subrange(0, 0));
    lemma_lex_diferenca(a, b, 0);
    if lex_menor(a, b) {
        let k = choose|k: int| 0 <= k && #[trigger] diferem_em(a, b, k);
        assert(a.subrange(0, k) == b.subrange(0, k));
    }
    if exists|k: int| {
        &&& 0 <= k <= a.len()
        &&& k < b.len()
        &&& #[trigger] a.subrange(0, k) == b.subrange(0, k)
        &&& k < a.len() ==> a[k] < b[k]
    } {
        let k = choose|k: int| {
            &&& 0 <= k <= a.len()
            &&& k < b.len()
            &&& #[trigger] a.subrange(0, k) == b.subrange(0, k)
            &&& k < a.len() ==> a[k] < b[k]
        };
        assert(diferem_em(a, b, k));
    }
}

} // verus!
