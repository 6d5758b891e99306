use laico_boot::numero::{escrever_decimal, ler_u32_exec};
use laico_boot::texto::{
    eh_espaco, aparar_exec, caracteres, lex_menor_exec, linhas_do_texto, minusculas_de, palavras_exec, substituir_exec,
    texto_de,
};

fn cs(s: &str) -> Vec<char> {
    s.chars().collect()
}

fn linhas(s: &str) -> Vec<String> {
    linhas_do_texto(&cs(s)).iter().map(|l| l.iter().collect()).collect()
}

#[test]
fn linhas_como_str_lines() {
    for amostra in ["", "a", "a\n", "a\r\nb\n\nc", "\n", "x\r", "x\ry\r\n\r\n", "a\n\n\n"] {
        let esperado: Vec<String> = amostra.lines().map(|l| l.to_string()).collect();
        assert_eq!(linhas(amostra), esperado, "{:?}", amostra);
    }
}

#[test]
fn linhas_valores_exatos() {
    assert_eq!(linhas("a\r\nb\n\nc"), vec!["a", "b", "", "c"]);
    assert_eq!(linhas("fim\n"), vec!["fim"]);
    assert!(linhas("").is_empty());
}

#[test]
fn substituir_como_str_replace() {
    let casos = [
        ("Name=Firefox", "Name=", ""),
        ("Name=Name=", "Name=", ""),
        ("aaaa", "aa", "b"),
        ("xNamey Name=z", "Name=", "-"),
        ("", "ab", "c"),
    ];
    for (s, p, t) in casos {
        let r: String = substituir_exec(&cs(s), &cs(p), &cs(t)).iter().collect();
        assert_eq!(r, s.replace(p, t));
    }
    let r: String = substituir_exec(&cs("aaa"), &cs("aa"), &cs("X")).iter().collect();
    assert_eq!(r, "Xa");
}

#[test]
fn aparar_como_trim() {
    for s in ["  a b  ", "", "   ", "\t x\n", "sem"] {
        let r: String = aparar_exec(&cs(s)).iter().collect();
        assert_eq!(r, s.trim());
    }
    let r: String = aparar_exec(&cs("  olá \u{3000}")).iter().collect();
    assert_eq!(r, "olá");
}

#[test]
fn palavras_como_split_whitespace() {
    for s in ["firefox %u", "  nano  -w arquivo ", "", "   ", "um"] {
        let r: Vec<String> = palavras_exec(&cs(s)).iter().map(|w| w.iter().collect()).collect();
        let e: Vec<String> = s.split_whitespace().map(|w| w.to_string()).collect();
        assert_eq!(r, e);
    }
}

#[test]
fn ordem_lexicografica() {
    assert!(lex_menor_exec(&cs("abc"), &cs("abd")));
    assert!(lex_menor_exec(&cs("ab"), &cs("abc")));
    assert!(!lex_menor_exec(&cs("abc"), &cs("abc")));
    assert!(!lex_menor_exec(&cs("b"), &cs("abc")));
    assert!(lex_menor_exec(&cs("z"), &cs("é")));
}

#[test]
fn minusculas_e_texto() {
    let m: String = minusculas_de("FireFOX Ä").iter().collect();
    assert_eq!(m, "firefox ä");
    assert_eq!(texto_de(&caracteres("ΔΞ")), "ΔΞ");
}

#[test]
fn ler_u32_como_parse() {
    for s in ["0", "+12", "007", "4294967295", "4294967296", "", "+", "-1", "12a", " 1", "99999999999999999999"] {
        assert_eq!(ler_u32_exec(&cs(s)), s.parse::<u32>().ok(), "{:?}", s);
    }
    assert_eq!(ler_u32_exec(&cs("+42")), Some(42));
}

#[test]
fn escrever_decimal_valores() {
    for n in [0u32, 7, 10, 305, 4294967295] {
        let mut out = vec!['x'];
        escrever_decimal(n, &mut out);
        let s: String = out.iter().collect();
        assert_eq!(s, format!("x{}", n));
    }
}

#[test]
fn decimal_ida_e_volta() {
    for n in [0u32, 1, 9, 10, 123456, u32::MAX] {
        let mut out = Vec::new();
        escrever_decimal(n, &mut out);
        assert_eq!(ler_u32_exec(&out), Some(n));
    }
}

#[test]
fn espaco_como_is_whitespace_em_todo_caractere() {
    for v in 0u32..=0x10FFFF {
        if let Some(c) = char::from_u32(v) {
            assert_eq!(eh_espaco(c), c.is_whitespace(), "U+{:04X}", v);
        }
    }
}
