use laico_boot::aplicativo::AppLauncher;
use laico_boot::comando::{
    classificar_arquivo, comando_em_terminal, comando_visualizador, escolher_servidor, limpar_caminho,
    plano_de_execucao, precisa_do_terminal, AcaoArquivo, ModoExecucao, ServidorGrafico,
};
use laico_boot::diretorio::{nome_para_abrir, nome_para_previa, obter_arquivos_da_pasta, rotulo_entrada, EntradaPasta};
use laico_boot::navegacao::{
    apos_mudar_pasta, estado_inicial, iniciar_app, recentes, tratar_tecla, Acao, ColunaAtiva, Tecla,
};

fn app(nome: &str, exec: &str, n: u32) -> AppLauncher {
    AppLauncher { nome: nome.to_string(), executavel: exec.to_string(), invocacoes: n }
}

fn entrada(nome: &str, pasta: bool, ext: &str) -> EntradaPasta {
    EntradaPasta { nome: nome.to_string(), eh_pasta: pasta, extensao: ext.to_string() }
}

#[test]
fn rotulos_de_entradas() {
    assert_eq!(rotulo_entrada(&entrada("src", true, "")), " Ω src/");
    assert_eq!(rotulo_entrada(&entrada("foto.PNG", false, "PNG")), " α foto.PNG");
    assert_eq!(rotulo_entrada(&entrada("main.rs", false, "rs")), " α main.rs");
    assert_eq!(rotulo_entrada(&entrada("musica.ogg", false, "ogg")), " α musica.ogg");
    assert_eq!(rotulo_entrada(&entrada("Faixa.OGG", false, "OGG")), " α Faixa.OGG");
    assert_eq!(rotulo_entrada(&entrada("programa", false, "")), " Ξ programa");
}

#[test]
fn listagem_ordenada() {
    let es = vec![entrada("zeta.txt", false, "txt"), entrada("Alfa", true, ""), entrada("beta", false, "")];
    let r = obter_arquivos_da_pasta(&es);
    // lowercase labels sort by their symbol first: α < ξ < ω
    assert_eq!(r, vec![" α zeta.txt", " Ξ beta", " Ω Alfa/"]);
    let es = vec![entrada("b", false, ""), entrada("A", false, ""), entrada("a", false, "")];
    assert_eq!(obter_arquivos_da_pasta(&es), vec![" Ξ A", " Ξ a", " Ξ b"]);
}

#[test]
fn nomes_a_partir_dos_rotulos() {
    assert_eq!(nome_para_abrir(" Ω src/"), "src/");
    assert_eq!(nome_para_previa(" Ω src/"), "src/");
    assert_eq!(nome_para_abrir(" α foto.png"), "foto.png");
    assert_eq!(nome_para_abrir(" Ξ a Δ b "), "a b");
    assert_eq!(nome_para_previa(" Ξ x  "), "x");
}

#[test]
fn plano_de_execucao_terminal_ou_desacoplado() {
    match plano_de_execucao("nano  /etc/hosts") {
        ModoExecucao::Terminal(p) => assert_eq!(p, vec!["nano", "/etc/hosts"]),
        ModoExecucao::Desacoplado => panic!("nano usa o terminal"),
    }
    match plano_de_execucao("archonplayer") {
        ModoExecucao::Terminal(p) => assert_eq!(p, vec!["archonplayer"]),
        ModoExecucao::Desacoplado => panic!("archonplayer usa o terminal"),
    }
    assert!(matches!(plano_de_execucao("firefox"), ModoExecucao::Desacoplado));
    assert!(matches!(plano_de_execucao("   "), ModoExecucao::Desacoplado));
    assert!(matches!(plano_de_execucao("nanox"), ModoExecucao::Desacoplado));
    assert!(precisa_do_terminal("yazi"));
    assert!(!precisa_do_terminal("archonplayer"));
}

#[test]
fn classificar_arquivos() {
    assert_eq!(classificar_arquivo("JPG", true, false), AcaoArquivo::AplicarImagem);
    assert_eq!(classificar_arquivo("ogg", true, false), AcaoArquivo::TocarMusica);
    assert_eq!(classificar_arquivo("conf", true, false), AcaoArquivo::EditarTexto);
    assert_eq!(classificar_arquivo("", false, true), AcaoArquivo::EntrarPasta);
    assert_eq!(classificar_arquivo("", false, false), AcaoArquivo::Nenhuma);
}

#[test]
fn linhas_de_comando() {
    assert_eq!(comando_visualizador("/a b.png"), "nsxiv -a -n 1 \"/a b.png\"");
    assert_eq!(comando_em_terminal(true, "nano", "/x"), "foot -e nano \"/x\"");
    assert_eq!(comando_em_terminal(false, "archonplayer", "/m.mp3"), "qterminal -e archonplayer \"/m.mp3\"");
}

#[test]
fn caminho_de_papel_de_parede() {
    assert_eq!(limpar_caminho("  '/home/u/a b.png'\n"), "/home/u/a b.png");
    assert_eq!(limpar_caminho("\"/x/\"y\""), "/x/y");
    assert_eq!(escolher_servidor(true, true), ServidorGrafico::Wayland);
    assert_eq!(escolher_servidor(false, true), ServidorGrafico::X11);
    assert_eq!(escolher_servidor(false, false), ServidorGrafico::Nenhum);
}

fn catalogo() -> Vec<AppLauncher> {
    vec![app("Files", "nautilus", 3), app("Firefox", "firefox", 0), app("Terminal", "kitty", 0)]
}

#[test]
fn estado_inicial_do_painel() {
    let lista = catalogo();
    let p = estado_inicial(&lista, 2);
    assert_eq!(p.coluna, ColunaAtiva::AplicativosMeio);
    assert_eq!(p.sel_apps, Some(0));
    assert_eq!(p.sel_dir, Some(4));
    assert_eq!(p.sel_previa, Some(0));
    assert_eq!(p.filtrados.len(), 3);
    let p = estado_inicial(&vec![], 0);
    assert_eq!(p.sel_apps, None);
    assert_eq!(p.sel_dir, None);
}

#[test]
fn tab_percorre_colunas() {
    let lista = catalogo();
    let mut p = estado_inicial(&lista, 2);
    assert_eq!(tratar_tecla(&mut p, Tecla::Tab, &lista, 2), Acao::Nenhuma);
    assert_eq!(p.coluna, ColunaAtiva::PreviewDireita);
    tratar_tecla(&mut p, Tecla::Tab, &lista, 2);
    assert_eq!(p.coluna, ColunaAtiva::DiretorioEsquerda);
    tratar_tecla(&mut p, Tecla::Tab, &lista, 2);
    assert_eq!(p.coluna, ColunaAtiva::AplicativosMeio);
}

#[test]
fn digitar_filtra_e_apagar_restaura() {
    let lista = catalogo();
    let mut p = estado_inicial(&lista, 2);
    tratar_tecla(&mut p, Tecla::Baixo, &lista, 2);
    assert_eq!(p.sel_apps, Some(1));
    tratar_tecla(&mut p, Tecla::Caractere('f'), &lista, 2);
    tratar_tecla(&mut p, Tecla::Caractere('r'), &lista, 2);
    assert_eq!(p.busca, "fr");
    let n: Vec<&str> = p.filtrados.iter().map(|a| a.nome.as_str()).collect();
    assert_eq!(n, vec!["Firefox"]);
    assert_eq!(p.sel_apps, Some(0));
    tratar_tecla(&mut p, Tecla::Caractere('z'), &lista, 2);
    assert!(p.filtrados.is_empty());
    assert_eq!(p.sel_apps, Some(0));
    tratar_tecla(&mut p, Tecla::Apagar, &lista, 2);
    tratar_tecla(&mut p, Tecla::Apagar, &lista, 2);
    tratar_tecla(&mut p, Tecla::Apagar, &lista, 2);
    tratar_tecla(&mut p, Tecla::Apagar, &lista, 2);
    assert_eq!(p.busca, "");
    assert_eq!(p.filtrados.len(), 3);
}

#[test]
fn setas_respeitam_limites() {
    let lista = catalogo();
    let mut p = estado_inicial(&lista, 2);
    tratar_tecla(&mut p, Tecla::Cima, &lista, 2);
    assert_eq!(p.sel_apps, Some(0));
    for _ in 0..5 {
        tratar_tecla(&mut p, Tecla::Baixo, &lista, 2);
    }
    assert_eq!(p.sel_apps, Some(2));
    p.coluna = ColunaAtiva::DiretorioEsquerda;
    tratar_tecla(&mut p, Tecla::Cima, &lista, 2);
    assert_eq!(p.sel_dir, Some(4));
    tratar_tecla(&mut p, Tecla::Baixo, &lista, 2);
    tratar_tecla(&mut p, Tecla::Baixo, &lista, 2);
    assert_eq!(p.sel_dir, Some(5));
    p.coluna = ColunaAtiva::PreviewDireita;
    for _ in 0..20 {
        tratar_tecla(&mut p, Tecla::Baixo, &lista, 2);
    }
    assert_eq!(p.sel_previa, Some(15));
}

#[test]
fn teclas_de_acao() {
    let lista = catalogo();
    let mut p = estado_inicial(&lista, 2);
    assert_eq!(tratar_tecla(&mut p, Tecla::Enter, &lista, 2), Acao::ExecutarApp(0));
    assert_eq!(tratar_tecla(&mut p, Tecla::Caractere('h'), &lista, 2), Acao::Nenhuma);
    assert_eq!(p.busca, "h");
    p.coluna = ColunaAtiva::DiretorioEsquerda;
    assert_eq!(tratar_tecla(&mut p, Tecla::Caractere('h'), &lista, 2), Acao::IrParaInicio);
    assert_eq!(tratar_tecla(&mut p, Tecla::Caractere('m'), &lista, 2), Acao::PararMusica);
    assert_eq!(tratar_tecla(&mut p, Tecla::Esquerda, &lista, 2), Acao::SubirPasta);
    assert_eq!(tratar_tecla(&mut p, Tecla::Enter, &lista, 2), Acao::AbrirEntrada(0));
    assert_eq!(tratar_tecla(&mut p, Tecla::F(4), &lista, 2), Acao::TrocarCor(1));
    assert_eq!(tratar_tecla(&mut p, Tecla::F(1), &lista, 2), Acao::AbrirNano);
    assert_eq!(p.busca, "");
    assert_eq!(tratar_tecla(&mut p, Tecla::F(2), &lista, 2), Acao::MostrarSistema);
    assert_eq!(tratar_tecla(&mut p, Tecla::F(3), &lista, 2), Acao::AbrirYazi);
    assert_eq!(tratar_tecla(&mut p, Tecla::F(5), &lista, 2), Acao::PapelDeParede);
    assert_eq!(tratar_tecla(&mut p, Tecla::F(10), &lista, 2), Acao::Sair);
    assert_eq!(tratar_tecla(&mut p, Tecla::Esc, &lista, 2), Acao::Sair);
    assert_eq!(tratar_tecla(&mut p, Tecla::F(7), &lista, 2), Acao::Nenhuma);
}

#[test]
fn quatro_temas() {
    let lista = catalogo();
    let mut p = estado_inicial(&lista, 0);
    for esperado in [1u8, 2, 3, 0] {
        assert_eq!(tratar_tecla(&mut p, Tecla::F(4), &lista, 0), Acao::TrocarCor(esperado));
    }
}

#[test]
fn iniciar_app_conta_e_reinicia_busca() {
    let mut lista = catalogo();
    let mut p = estado_inicial(&lista, 0);
    tratar_tecla(&mut p, Tecla::Caractere('t'), &lista, 0);
    tratar_tecla(&mut p, Tecla::Caractere('e'), &lista, 0);
    assert_eq!(p.filtrados.len(), 1);
    let a = iniciar_app(&mut p, &mut lista, 0);
    assert_eq!(a.nome, "Terminal");
    assert_eq!(p.busca, "");
    let n: Vec<(&str, u32)> = lista.iter().map(|a| (a.nome.as_str(), a.invocacoes)).collect();
    assert_eq!(n, vec![("Files", 3), ("Terminal", 1), ("Firefox", 0)]);
    assert_eq!(p.filtrados.len(), 3);
    assert_eq!(p.sel_apps, Some(0));
}

#[test]
fn mudar_pasta_e_recentes() {
    let lista = vec![app("a", "", 0), app("b", "", 2), app("c", "", 1), app("d", "", 5), app("e", "", 1)];
    let mut p = estado_inicial(&lista, 3);
    p.sel_dir = Some(6);
    apos_mudar_pasta(&mut p);
    assert_eq!(p.sel_dir, Some(4));
    assert_eq!(p.coluna, ColunaAtiva::DiretorioEsquerda);
    assert_eq!(recentes(&lista), vec![1, 2, 3]);
    assert!(recentes(&vec![app("x", "", 0)]).is_empty());
}

#[test]
fn rotulo_devolve_o_nome() {
    for (nome, pasta, ext) in [("src", true, ""), ("foto.png", false, "png"), ("a b", false, ""), ("", false, "")] {
        let r = rotulo_entrada(&entrada(nome, pasta, ext));
        let esperado = if pasta { format!("{}/", nome) } else { nome.to_string() };
        assert_eq!(nome_para_abrir(&r), esperado);
    }
}

#[test]
fn selecoes_ficam_validas() {
    let lista = catalogo();
    let mut p = estado_inicial(&lista, 3);
    let teclas = [
        Tecla::Baixo, Tecla::Baixo, Tecla::Caractere('e'), Tecla::Baixo, Tecla::Cima, Tecla::Tab, Tecla::Tab,
        Tecla::Cima, Tecla::Baixo, Tecla::Baixo, Tecla::Baixo, Tecla::Baixo, Tecla::Tab, Tecla::F(1),
        Tecla::Baixo, Tecla::Apagar, Tecla::Caractere('s'), Tecla::Baixo,
    ];
    for t in teclas {
        tratar_tecla(&mut p, t, &lista, 3);
        if let Some(i) = p.sel_dir {
            assert!((4..7).contains(&i));
        }
        if !p.filtrados.is_empty() {
            assert!(p.sel_apps.unwrap() < p.filtrados.len());
        }
    }
}
