use laico_boot::aplicativo::{analisar_desktop, montar_catalogo, ordenar_por_nome, ordenar_por_uso, AppLauncher};
use laico_boot::busca::{filtrar_apps, pontuar};
use laico_boot::historico::{
    carregar_historico, ler_registro, pode_registrar_uso, registrar_uso_historico, serializar_historico,
};

fn app(nome: &str, exec: &str, n: u32) -> AppLauncher {
    AppLauncher { nome: nome.to_string(), executavel: exec.to_string(), invocacoes: n }
}

fn nomes(v: &[AppLauncher]) -> Vec<&str> {
    v.iter().map(|a| a.nome.as_str()).collect()
}

#[test]
fn desktop_simples() {
    let c = "[Desktop Entry]\nName=Firefox\nExec=firefox %u\nName=Outro\n";
    let a = analisar_desktop(c).unwrap();
    assert_eq!(a.nome, "Firefox");
    assert_eq!(a.executavel, "firefox");
    assert_eq!(a.invocacoes, 0);
}

#[test]
fn desktop_sem_nome_ou_exec() {
    assert!(analisar_desktop("Name=Só nome\n").is_none());
    assert!(analisar_desktop("Exec=prog\n").is_none());
    assert!(analisar_desktop("").is_none());
}

#[test]
fn desktop_primeiro_valor_nao_vazio() {
    let c = "Name=\nExec=   \nName=Segundo Name=x\r\nExec=prog -a\nExec=outro\n";
    let a = analisar_desktop(c).unwrap();
    assert_eq!(a.nome, "Segundo x");
    assert_eq!(a.executavel, "prog");
}

#[test]
fn catalogo_ordenado_por_nome() {
    let cs = vec![
        "Name=zeta\nExec=z\n".to_string(),
        "lixo".to_string(),
        "Name=Alfa\nExec=a\n".to_string(),
        "Name=beta\nExec=b\n".to_string(),
        "Name=ALFA\nExec=a2\n".to_string(),
    ];
    let cat = montar_catalogo(&cs);
    assert_eq!(nomes(&cat), vec!["Alfa", "ALFA", "beta", "zeta"]);
    assert_eq!(cat[1].executavel, "a2");
}

#[test]
fn ordenar_por_nome_estavel() {
    let v = vec![app("b", "1", 0), app("A", "2", 0), app("a", "3", 0)];
    let r = ordenar_por_nome(&v);
    assert_eq!(nomes(&r), vec!["A", "a", "b"]);
}

#[test]
fn ordenar_por_uso_valores() {
    let v = vec![app("c", "", 1), app("B", "", 5), app("a", "", 1), app("d", "", 0)];
    let r = ordenar_por_uso(&v);
    assert_eq!(nomes(&r), vec!["B", "a", "c", "d"]);
}

#[test]
fn busca_vazia_devolve_tudo() {
    let v = vec![app("b", "", 0), app("a", "", 9)];
    let r = filtrar_apps(&v, "");
    assert_eq!(nomes(&r), vec!["b", "a"]);
}

#[test]
fn busca_subsequencia_ordenada() {
    let v = vec![
        app("Firefox", "firefox", 0),
        app("Files", "nautilus", 3),
        app("Terminal", "kitty", 0),
        app("Fish", "fish", 0),
    ];
    let r = filtrar_apps(&v, "FI");
    assert_eq!(nomes(&r), vec!["Files", "Firefox", "Fish"]);
    let r = filtrar_apps(&v, "fx");
    assert_eq!(nomes(&r), vec!["Firefox"]);
    let r = filtrar_apps(&v, "zz");
    assert!(r.is_empty());
    let r = filtrar_apps(&v, "tl");
    assert_eq!(nomes(&r), vec!["Terminal"]);
}

#[test]
fn busca_pontua_por_bytes() {
    // "ééb" ends its match at byte 5, as "xxxxb" does: a tie keeps the order.
    let v = vec![app("xxxxb", "", 0), app("ééb", "", 0), app("bx", "", 0)];
    let r = filtrar_apps(&v, "b");
    assert_eq!(nomes(&r), vec!["bx", "xxxxb", "ééb"]);
    let nome: Vec<char> = "ééb".chars().collect();
    let q: Vec<char> = vec!['b'];
    assert_eq!(pontuar(&nome, &q), Some(5));
    assert_eq!(pontuar(&nome, &vec!['z']), None);
    assert_eq!(pontuar(&nome, &vec![]), Some(0));
}

#[test]
fn historico_carregado_e_ordenado() {
    let mut v = vec![app("Alfa", "", 0), app("Beta", "", 0), app("Gama", "", 0), app("Beta", "", 0)];
    let texto = "Beta|3\nlinha ruim\nGama|x\nAlfa|1|2\nGama|+7\r\nDesconhecido|4\nBeta|2\n";
    carregar_historico(&mut v, texto);
    let r: Vec<(&str, u32)> = v.iter().map(|a| (a.nome.as_str(), a.invocacoes)).collect();
    assert_eq!(r, vec![("Gama", 7), ("Beta", 2), ("Alfa", 0), ("Beta", 0)]);
}

#[test]
fn historico_vazio_so_ordena() {
    let mut v = vec![app("b", "", 0), app("a", "", 2), app("C", "", 0)];
    carregar_historico(&mut v, "");
    assert_eq!(nomes(&v), vec!["a", "b", "C"]);
}

#[test]
fn registro_de_linhas() {
    let l: Vec<char> = "Nome|12".chars().collect();
    let (n, c) = ler_registro(&l).unwrap();
    assert_eq!(n.iter().collect::<String>(), "Nome");
    assert_eq!(c, 12);
    for ruim in ["sem barra", "a|b|1", "a|", "a|-1", "a|4294967296"] {
        let l: Vec<char> = ruim.chars().collect();
        assert!(ler_registro(&l).is_none(), "{}", ruim);
    }
    let l: Vec<char> = "|0".chars().collect();
    assert!(ler_registro(&l).is_some());
}

#[test]
fn registrar_uso_conta_e_ordena() {
    let mut v = vec![app("a", "", 2), app("b", "", 2), app("b", "", 0)];
    assert!(pode_registrar_uso("b", &v));
    registrar_uso_historico("b", &mut v);
    let r: Vec<(&str, u32)> = v.iter().map(|a| (a.nome.as_str(), a.invocacoes)).collect();
    assert_eq!(r, vec![("b", 3), ("a", 2), ("b", 0)]);
    registrar_uso_historico("inexistente", &mut v);
    assert_eq!(v.len(), 3);
}

#[test]
fn registrar_uso_no_limite() {
    let v = vec![app("a", "", u32::MAX)];
    assert!(!pode_registrar_uso("a", &v));
    assert!(pode_registrar_uso("b", &v));
}

#[test]
fn historico_serializado() {
    let v = vec![app("Firefox", "", 12), app("Nada", "", 0), app("Kitty", "", 1)];
    assert_eq!(serializar_historico(&v), "Firefox|12\nKitty|1\n");
    assert_eq!(serializar_historico(&vec![]), "");
}

#[test]
fn historico_ida_e_volta() {
    let gravado = vec![app("Firefox", "", 12), app("Nada", "", 0), app("Kitty\r", "", 1)];
    let texto = serializar_historico(&gravado);
    let mut lido = vec![app("Nada", "", 0), app("Kitty\r", "", 0), app("Firefox", "", 0)];
    carregar_historico(&mut lido, &texto);
    let r: Vec<(&str, u32)> = lido.iter().map(|a| (a.nome.as_str(), a.invocacoes)).collect();
    assert_eq!(r, vec![("Firefox", 12), ("Kitty\r", 1), ("Nada", 0)]);
}

#[test]
fn casamento_termina_o_mais_cedo() {
    let nome: Vec<char> = "abab".chars().collect();
    assert_eq!(pontuar(&nome, &vec!['a', 'b']), Some(2));
    assert_eq!(pontuar(&nome, &vec!['b', 'b']), Some(4));
    assert_eq!(pontuar(&nome, &vec!['b', 'a', 'b', 'a']), None);
}

#[test]
fn busca_ordenada_por_uso() {
    let v = vec![app("ab", "", 1), app("xab", "", 7), app("abc", "", 0), app("a-b", "", 7)];
    let r = filtrar_apps(&v, "AB");
    let usos: Vec<u32> = r.iter().map(|a| a.invocacoes).collect();
    assert!(usos.windows(2).all(|w| w[0] >= w[1]));
    assert_eq!(nomes(&r), vec!["xab", "a-b", "ab", "abc"]);
    assert_eq!(nomes(&filtrar_apps(&v, "ab")), nomes(&r));
}

#[test]
fn ordenacao_deterministica() {
    let v = vec![app("c", "1", 1), app("C", "2", 1), app("b", "3", 4), app("c", "4", 1)];
    let r1 = ordenar_por_uso(&v);
    let r2 = ordenar_por_uso(&r1);
    let e1: Vec<&str> = r1.iter().map(|a| a.executavel.as_str()).collect();
    let e2: Vec<&str> = r2.iter().map(|a| a.executavel.as_str()).collect();
    assert_eq!(e1, vec!["3", "1", "2", "4"]);
    assert_eq!(e1, e2);
}

#[test]
fn busca_ignora_caixa_da_consulta() {
    let v = vec![app("Firefox", "", 0), app("Fire Ant", "", 2), app("Files", "", 0)];
    let base = nomes(&filtrar_apps(&v, "fire")).into_iter().map(String::from).collect::<Vec<_>>();
    assert_eq!(base, vec!["Fire Ant", "Firefox"]);
    for q in ["FIRE", "FiRe"] {
        let r = filtrar_apps(&v, q);
        assert_eq!(nomes(&r), base.iter().map(|s| s.as_str()).collect::<Vec<_>>());
    }
}

#[test]
fn refinar_a_consulta_nao_traz_entradas() {
    let v = vec![app("Firefox", "", 0), app("Files", "", 1), app("Gimp", "", 0), app("Fish", "", 0)];
    let consultas = ["", "f", "fi", "fir", "firx"];
    for w in consultas.windows(2) {
        let curta = filtrar_apps(&v, w[0]);
        let longa = filtrar_apps(&v, w[1]);
        for a in &longa {
            let em_longa = longa.iter().filter(|b| b.nome == a.nome).count();
            let em_curta = curta.iter().filter(|b| b.nome == a.nome).count();
            assert!(em_longa <= em_curta);
        }
    }
}

#[test]
fn carregar_duas_vezes_igual_a_uma() {
    let texto = "Beta|3\nGama|7\nAlfa|1\nGama|2\n";
    let mut uma = vec![app("alfa", "", 4), app("Beta", "", 0), app("Gama", "", 0), app("Alfa", "", 0)];
    carregar_historico(&mut uma, texto);
    let mut duas: Vec<AppLauncher> = uma.iter().map(|a| a.duplicar()).collect();
    carregar_historico(&mut duas, texto);
    let r1: Vec<(&str, u32)> = uma.iter().map(|a| (a.nome.as_str(), a.invocacoes)).collect();
    let r2: Vec<(&str, u32)> = duas.iter().map(|a| (a.nome.as_str(), a.invocacoes)).collect();
    assert_eq!(r1, vec![("alfa", 4), ("Beta", 3), ("Gama", 2), ("Alfa", 1)]);
    assert_eq!(r1, r2);
}

#[test]
fn contagens_sobrevivem_a_novo_catalogo() {
    let mut antes = vec![app("Feh", "feh", 0), app("alacritty", "alacritty", 2), app("Zathura", "zathura", 0)];
    registrar_uso_historico("Feh", &mut antes);
    let texto = serializar_historico(&antes);
    let mut novo = vec![app("Zathura", "z", 0), app("Novo", "n", 0), app("Feh", "f", 0), app("alacritty", "a", 0)];
    carregar_historico(&mut novo, &texto);
    let r: Vec<(&str, u32)> = novo.iter().map(|a| (a.nome.as_str(), a.invocacoes)).collect();
    assert_eq!(r, vec![("alacritty", 2), ("Feh", 1), ("Novo", 0), ("Zathura", 0)]);
}
