//! What to run: how a command line is started, what opening a local file
//! does, the command lines built for it, and the wallpaper choices.

use vstd::prelude::*;
use crate::texto::{
    caracteres, texto_de, minusculas, minusculas_de, palavras, palavras_exec, vistas, iguais, aparar,
    aparar_exec, substituir, substituir_exec,
};
use crate::aplicativo::textos;

verus! {

pub open spec fn palavra_nano() -> Seq<char> {
    seq!['n', 'a', 'n', 'o']
}

pub open spec fn palavra_yazi() -> Seq<char> {
    seq!['y', 'a', 'z', 'i']
}

pub open spec fn palavra_archonplayer() -> Seq<char> {
    seq!['a', 'r', 'c', 'h', 'o', 'n', 'p', 'l', 'a', 'y', 'e', 'r']
}

/// Programs that take over the terminal in the foreground.
pub open spec fn programa_de_terminal(p: Seq<char>) -> bool {
    p == palavra_nano() || p == palavra_yazi() || p == palavra_archonplayer()
}

/// How a command line is started.
pub enum ModoExecucao {
    /// In the foreground of the terminal, waiting for it: the program and
    /// its arguments.
    Terminal(Vec<String>),
    /// Detached from the launcher, through `sh -c` with the whole line.
    Desacoplado,
}

/// How a command line is started: a line whose first word is `nano`, `yazi`
/// or `archonplayer` runs in the terminal with its words as program and
/// arguments; any other line runs detached.
pub fn plano_de_execucao(comando: &str) -> (r: ModoExecucao)
    ensures
        match r {
            ModoExecucao::Terminal(partes) => {
                &&& palavras(comando@).len() > 0
                &&& programa_de_terminal(palavras(comando@)[0])
                &&& textos(partes@) == palavras(comando@)
            },
            ModoExecucao::Desacoplado => palavras(comando@).len() == 0 || !programa_de_terminal(palavras(comando@)[0]),
        },
        (r is Terminal) <==> (palavras(comando@).len() > 0 && (palavras(comando@)[0] == seq!['n', 'a', 'n', 'o']
            || palavras(comando@)[0] == seq!['y', 'a', 'z', 'i'] || palavras(comando@)[0] == seq![
            'a',
            'r',
            'c',
            'h',
            'o',
            'n',
            'p',
            'l',
            'a',
            'y',
            'e',
            'r',
        ])),
{
    let cs = caracteres(comando);
    let ps = palavras_exec(&cs);
    if ps.len() == 0 {
        return ModoExecucao::Desacoplado;
    }
    let nano: Vec<char> = vec!['n', 'a', 'n', 'o'];
    let yazi: Vec<char> = vec!['y', 'a', 'z', 'i'];
    let player: Vec<char> = vec!['a', 'r', 'c', 'h', 'o', 'n', 'p', 'l', 'a', 'y', 'e', 'r'];
    assert(nano@ =~= palavra_nano());
    assert(yazi@ =~= palavra_yazi());
    assert(player@ =~= palavra_archonplayer());
    assert(ps@[0]@ == palavras(comando@)[0]);
    if iguais(&ps[0], &nano) || iguais(&ps[0], &yazi) || iguais(&ps[0], &player) {
        let mut partes: Vec<String> = Vec::new();
        let mut i: usize = 0;
        while i < ps.len()
            invariant
                i <= ps.len(),
                textos(partes@) == vistas(ps@).subrange(0, i as int),
            decreases ps.len() - i,
        {
            let ghost antes = textos(partes@);
            let t = texto_de(&ps[i]);
            partes.push(t);
            assert(textos(partes@) =~= antes.push(ps@[i as int]@));
            assert(vistas(ps@).subrange(0, i + 1) =~= vistas(ps@).subrange(0, i as int).push(ps@[i as int]@));
            i = i + 1;
        }
        assert(vistas(ps@).subrange(0, i as int) =~= vistas(ps@));
        ModoExecucao::Terminal(partes)
    } else {
        ModoExecucao::Desacoplado
    }
}

/// Whether starting this program needs the terminal handed over to it
/// (`nano` or `yazi`).
pub fn precisa_do_terminal(programa: &str) -> (r: bool)
    ensures
        r == (programa@ == palavra_nano() || programa@ == palavra_yazi()),
{
    let p = caracteres(programa);
    let nano: Vec<char> = vec!['n', 'a', 'n', 'o'];
    let yazi: Vec<char> = vec!['y', 'a', 'z', 'i'];
    assert(nano@ =~= palavra_nano());
    assert(yazi@ =~= palavra_yazi());
    iguais(&p, &nano) || iguais(&p, &yazi)
}

/// What opening a local file does.
#[derive(PartialEq, Eq, Structural, Clone, Copy, Debug)]
pub enum AcaoArquivo {
    /// An image: set as wallpaper (and shown, under X11).
    AplicarImagem,
    /// Audio: played in a terminal of its own.
    TocarMusica,
    /// Any other file: edited in a terminal of its own.
    EditarTexto,
    /// A directory: entered.
    EntrarPasta,
    /// Nothing.
    Nenhuma,
}

/// Lowercase extensions of images.
pub open spec fn extensao_imagem(e: Seq<char>) -> bool {
    e == seq!['p', 'n', 'g'] || e == seq!['j', 'p', 'g'] || e == seq!['j', 'p', 'e', 'g'] || e == seq!['g', 'i', 'f']
}

/// Lowercase extensions of audio.
pub open spec fn extensao_audio(e: Seq<char>) -> bool {
    e == seq!['m', 'p', '3'] || e == seq!['w', 'a', 'v'] || e == seq!['f', 'l', 'a', 'c'] || e == seq!['o', 'g', 'g']
}

/// What opening an entry does, from its extension and its kind.
pub open spec fn acao_arquivo(extensao: Seq<char>, eh_arquivo: bool, eh_pasta: bool) -> AcaoArquivo {
    let e = minusculas(extensao);
    if extensao_imagem(e) {
        AcaoArquivo::AplicarImagem
    } else if extensao_audio(e) {
        AcaoArquivo::TocarMusica
    } else if eh_arquivo {
        AcaoArquivo::EditarTexto
    } else if eh_pasta {
        AcaoArquivo::EntrarPasta
    } else {
        AcaoArquivo::Nenhuma
    }
}

/// What opening an entry of the left column does.
pub fn classificar_arquivo(extensao: &str, eh_arquivo: bool, eh_pasta: bool) -> (r: AcaoArquivo)
    ensures
        r == acao_arquivo(extensao@, eh_arquivo, eh_pasta),
        (r == AcaoArquivo::AplicarImagem) <==> (minusculas(extensao@) == seq!['p', 'n', 'g'] || minusculas(extensao@)
            == seq!['j', 'p', 'g'] || minusculas(extensao@) == seq!['j', 'p', 'e', 'g'] || minusculas(extensao@)
            == seq!['g', 'i', 'f']),
{
    let e = minusculas_de(extensao);
    let png: Vec<char> = vec!['p', 'n', 'g'];
    let jpg: Vec<char> = vec!['j', 'p', 'g'];
    let jpeg: Vec<char> = vec!['j', 'p', 'e', 'g'];
    let gif: Vec<char> = vec!['g', 'i', 'f'];
    let mp3: Vec<char> = vec!['m', 'p', '3'];
    let wav: Vec<char> = vec!['w', 'a', 'v'];
    let flac: Vec<char> = vec!['f', 'l', 'a', 'c'];
    let ogg: Vec<char> = vec!['o', 'g', 'g'];
    assert(png@ =~= seq!['p', 'n', 'g']);
    assert(jpg@ =~= seq!['j', 'p', 'g']);
    assert(jpeg@ =~= seq!['j', 'p', 'e', 'g']);
    assert(gif@ =~= seq!['g', 'i', 'f']);
    assert(mp3@ =~= seq!['m', 'p', '3']);
    assert(wav@ =~= seq!['w', 'a', 'v']);
    assert(flac@ =~= seq!['f', 'l', 'a', 'c']);
    assert(ogg@ =~= seq!['o', 'g', 'g']);
    if iguais(&e, &png) || iguais(&e, &jpg) || iguais(&e, &jpeg) || iguais(&e, &gif) {
        AcaoArquivo::AplicarImagem
    } else if iguais(&e, &mp3) || iguais(&e, &wav) || iguais(&e, &flac) || iguais(&e, &ogg) {
        AcaoArquivo::TocarMusica
    } else if eh_arquivo {
        AcaoArquivo::EditarTexto
    } else if eh_pasta {
        AcaoArquivo::EntrarPasta
    } else {
        AcaoArquivo::Nenhuma
    }
}

/// The command line that shows an image in a floating viewer:
/// `nsxiv -a -n 1 "<path>"`.
pub fn comando_visualizador(caminho: &str) -> (r: String)
    ensures
        r@ == "nsxiv -a -n 1 \""@ + caminho@ + "\""@,
{
    let mut r = String::from_str("nsxiv -a -n 1 \"");
    r.append(caminho);
    r.append("\"");
    r
}

/// The command line that runs `programa` on a file in a terminal window of
/// its own: `foot` under Wayland, `qterminal` otherwise.
pub fn comando_em_terminal(wayland: bool, programa: &str, caminho: &str) -> (r: String)
    ensures
        r@ == (if wayland { "foot"@ } else { "qterminal"@ }) + " -e "@ + programa@ + " \""@ + caminho@ + "\""@,
{
    let mut r = if wayland {
        String::from_str("foot")
    } else {
        String::from_str("qterminal")
    };
    r.append(" -e ");
    r.append(programa);
    r.append(" \"");
    r.append(caminho);
    r.append("\"");
    r
}

/// The path typed for a wallpaper: surrounding whitespace removed, then
/// every single and double quote.
pub open spec fn caminho_limpo(s: Seq<char>) -> Seq<char> {
    substituir(substituir(aparar(s), seq!['\''], seq![]), seq!['"'], seq![])
}

/// Cleans the path typed for a wallpaper.
pub fn limpar_caminho(entrada: &str) -> (r: String)
    ensures
        r@ == caminho_limpo(entrada@),
{
    let s = caracteres(entrada);
    let a = aparar_exec(&s);
    let vazio: Vec<char> = Vec::new();
    let aspa: Vec<char> = vec!['\''];
    let aspas: Vec<char> = vec!['"'];
    assert(vazio@ =~= Seq::<char>::empty());
    assert(aspa@ =~= seq!['\'']);
    assert(aspas@ =~= seq!['"']);
    let b = substituir_exec(&a, &aspa, &vazio);
    texto_de(&substituir_exec(&b, &aspas, &vazio))
}

/// The display server a wallpaper is applied through.
#[derive(PartialEq, Eq, Structural, Clone, Copy, Debug)]
pub enum ServidorGrafico {
    /// Wayland: `swww`, or `swaybg` when `swww` cannot start.
    Wayland,
    /// X11: `feh`, then the `xcompmgr` compositor restarted.
    X11,
    /// None reachable.
    Nenhum,
}

/// Wayland is preferred when both sessions are present.
pub fn escolher_servidor(sessao_wayland: bool, sessao_x11: bool) -> (r: ServidorGrafico)
    ensures
        r == (if sessao_wayland {
            ServidorGrafico::Wayland
        } else if sessao_x11 {
            ServidorGrafico::X11
        } else {
            ServidorGrafico::Nenhum
        }),
{
    if sessao_wayland {
        ServidorGrafico::Wayland
    } else if sessao_x11 {
        ServidorGrafico::X11
    } else {
        ServidorGrafico::Nenhum
    }
}

/// The programs that run in the foreground of the terminal are exactly
/// `nano`, `yazi` and `archonplayer`.
pub proof fn lei_programas_de_terminal(p: Seq<char>)
    ensures
        programa_de_terminal(p) <==> (p == seq!['n', 'a', 'n', 'o'] || p == seq!['y', 'a', 'z', 'i'] || p == seq![
            'a',
            'r',
            'c',
            'h',
            'o',
            'n',
            'p',
            'l',
            'a',
            'y',
            'e',
            'r',
        ]),
{
}

/// What opening an entry does, by its lowercase extension and kind:
/// `png`, `jpg`, `jpeg`, `gif` are applied as wallpaper whatever the kind;
/// `mp3`, `wav`, `flac`, `ogg` are played; any other file is edited; any
/// other directory is entered; anything else does nothing.
pub proof fn lei_acao_arquivo(extensao: Seq<char>, eh_arquivo: bool, eh_pasta: bool)
    ensures
        ({
            let e = minusculas(extensao);
            let imagem = e == seq!['p', 'n', 'g'] || e == seq!['j', 'p', 'g'] || e == seq!['j', 'p', 'e', 'g'] || e
                == seq!['g', 'i', 'f'];
            let audio = e == seq!['m', 'p', '3'] || e == seq!['w', 'a', 'v'] || e == seq!['f', 'l', 'a', 'c'] || e
                == seq!['o', 'g', 'g'];
            &&& imagem ==> acao_arquivo(extensao, eh_arquivo, eh_pasta) == AcaoArquivo::AplicarImagem
            &&& !imagem && audio ==> acao_arquivo(extensao, eh_arquivo, eh_pasta) == AcaoArquivo::TocarMusica
            &&& !imagem && !audio && eh_arquivo ==> acao_arquivo(extensao, eh_arquivo, eh_pasta)
                == AcaoArquivo::EditarTexto
            &&& !imagem && !audio && !eh_arquivo && eh_pasta ==> acao_arquivo(extensao, eh_arquivo, eh_pasta)
                == AcaoArquivo::EntrarPasta
            &&& !imagem && !audio && !eh_arquivo && !eh_pasta ==> acao_arquivo(extensao, eh_arquivo, eh_pasta)
                == AcaoArquivo::Nenhuma
        }),
{
}

} // verus!
