//! Decimal numbers as the history file writes and reads them.

use vstd::prelude::*;

verus! {

/// Whether a character is an ASCII decimal digit.
pub open spec fn eh_digito(c: char) -> bool {
    '0' <= c && c <= '9'
}

/// The value of an ASCII decimal digit.
pub open spec fn valor_digito(c: char) -> nat {
    ((c as u32) - ('0' as u32)) as nat
}

/// The digit that writes a value below ten.
pub open spec fn digito(n: nat) -> char {
    if n == 0 {
        '0'
    } else if n == 1 {
        '1'
    } else if n == 2 {
        '2'
    } else if n == 3 {
        '3'
    } else if n == 4 {
        '4'
    } else if n == 5 {
        '5'
    } else if n == 6 {
        '6'
    } else if n == 7 {
        '7'
    } else if n == 8 {
        '8'
    } else {
        '9'
    }
}

/// Whether a sequence is made of ASCII decimal digits only.
pub open spec fn so_digitos(d: Seq<char>) -> bool {
    forall|i: int| 0 <= i < d.len() ==> eh_digito(#[trigger] d[i])
}

/// The value that a sequence of decimal digits writes.
pub open spec fn valor_decimal(d: Seq<char>) -> nat
    decreases d.len(),
{
    if d.len() == 0 {
        0
    } else {
        10 * valor_decimal(d.drop_last()) + valor_digito(d.last())
    }
}

/// The digits of a sequence after an optional leading `'+'`.
pub open spec fn sem_sinal(s: Seq<char>) -> Seq<char> {
    if s.len() > 0 && s[0] == '+' {
        s.drop_first()
    } else {
        s
    }
}

/// `str::parse::<u32>`: an optional `'+'` followed by at least one ASCII
/// digit, whose value fits in a `u32`.
pub open spec fn ler_u32(s: Seq<char>) -> Option<u32> {
    let d = sem_sinal(s);
    if d.len() > 0 && so_digitos(d) && valor_decimal(d) <= u32::MAX {
        Some(valor_decimal(d) as u32)
    } else {
        None
    }
}

/// The decimal writing of a number, without leading zeros (`format!("{}")`).
pub open spec fn decimal(n: nat) -> Seq<char>
    decreases n,
{
    if n < 10 {
        seq![digito(n)]
    } else {
        decimal(n / 10).push(digito(n % 10))
    }
}

pub proof fn lemma_valor_prefixo(d: Seq<char>, k: int)
    requires
        0 <= k <= d.len(),
    ensures
        valor_decimal(d.subrange(0, k)) <= valor_decimal(d),
    decreases d.len(),
{
    if k < d.len() {
        lemma_valor_prefixo(d.drop_last(), k);
        assert(d.drop_last().subrange(0, k) =~= d.subrange(0, k));
    } else {
        assert(d.subrange(0, k) =~= d);
    }
}

/// `str::parse::<u32>` on a character sequence.
pub fn ler_u32_exec(s: &Vec<char>) -> (r: Option<u32>)
    ensures
        r == ler_u32(s@),
{
    let mut i: usize = 0;
    if s.len() > 0 && s[0] == '+' {
        i = 1;
    }
    let ghost d = sem_sinal(s@);
    assert(d =~= s@.subrange(i as int, s@.len() as int));
    if i >= s.len() {
        return None;
    }
    let mut acc: u64 = 0;
    let mut k: usize = i;
    while k < s.len()
        invariant
            i <= k <= s.len(),
            d == sem_sinal(s@),
            d == s@.subrange(i as int, s@.len() as int),
            so_digitos(s@.subrange(i as int, k as int)),
            acc == valor_decimal(s@.subrange(i as int, k as int)),
            acc <= u32::MAX,
        decreases s.len() - k,
    {
        let c = s[k];
        let ghost pre = s@.subrange(i as int, k as int);
        let ghost pos = s@.subrange(i as int, k + 1);
        assert(pos.drop_last() =~= pre);
        assert(pos =~= d.subrange(0, k + 1 - i));
        if !('0' <= c && c <= '9') {
            assert(!so_digitos(d)) by {
                assert(d[k - i] == c);
            }
            return None;
        }
        let v = (c as u32 - '0' as u32) as u64;
        let novo = acc * 10 + v;
        if novo > 0xffff_ffff {
            proof {
                lemma_valor_prefixo(d, k + 1 - i);
            }
            return None;
        }
        acc = novo;
        k = k + 1;
        assert(so_digitos(s@.subrange(i as int, k as int))) by {
            assert forall|j: int| 0 <= j < pos.len() implies eh_digito(#[trigger] pos[j]) by {
                if j < pre.len() {
                    assert(pos[j] == pre[j]);
                }
            }
        }
    }
    assert(s@.subrange(i as int, k as int) =~= d);
    Some(acc as u32)
}

/// Appends the decimal writing of `n` to `out`.
pub fn escrever_decimal(n: u32, out: &mut Vec<char>)
    ensures
        final(out)@ == old(out)@ + decimal(n as nat),
    decreases n,
{
    if n >= 10 {
        escrever_decimal(n / 10, out);
    }
    let d = n % 10;
    let c = char_de_digito(d);
    let ghost antes = out@;
    out.push(c);
    proof {
        if n >= 10 {
            assert(decimal(n as nat) == decimal((n / 10) as nat).push(digito((n % 10) as nat)));
        }
    }
    assert(out@ =~= old(out)@ + decimal(n as nat));
}

/// The character of a decimal digit value.
fn char_de_digito(d: u32) -> (c: char)
    requires
        d < 10,
    ensures
        c == digito(d as nat),
{
    if d == 0 {
        '0'
    } else if d == 1 {
        '1'
    } else if d == 2 {
        '2'
    } else if d == 3 {
        '3'
    } else if d == 4 {
        '4'
    } else if d == 5 {
        '5'
    } else if d == 6 {
        '6'
    } else if d == 7 {
        '7'
    } else if d == 8 {
        '8'
    } else {
        '9'
    }
}

pub proof fn lemma_digito(m: nat)
    requires
        m < 10,
    ensures
        eh_digito(digito(m)),
        valor_digito(digito(m)) == m,
        digito(m) != '+',
{
}

pub proof fn lemma_decimal(n: nat)
    ensures
        decimal(n).len() > 0,
        so_digitos(decimal(n)),
        valor_decimal(decimal(n)) == n,
        decimal(n)[0] != '+',
    decreases n,
{
    lemma_digito(n % 10);
    if n >= 10 {
        lemma_decimal(n / 10);
        let p = decimal(n / 10);
        let q = p.push(digito(n % 10));
        assert(q.drop_last() =~= p);
        assert forall|i: int| 0 <= i < q.len() implies eh_digito(#[trigger] q[i]) by {
            if i < p.len() {
                assert(q[i] == p[i]);
            }
        }
        assert(valor_decimal(q) == 10 * valor_decimal(p) + valor_digito(digito(n % 10)));
        assert(10 * (n / 10) + n % 10 == n);
    } else {
        assert(n % 10 == n);
        let q = decimal(n);
        assert(q.drop_last() =~= Seq::<char>::empty());
        assert(valor_decimal(q) == 10 * valor_decimal(q.drop_last()) + valor_digito(q.last()));
    }
}

/// Reading back the decimal writing of a number gives that number.
pub proof fn lei_decimal_ida_e_volta(n: u32)
    ensures
        ler_u32(decimal(n as nat)) == Some(n),
{
    lemma_decimal(n as nat);
}

} // verus!
