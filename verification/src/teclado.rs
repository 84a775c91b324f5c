//! Teclas de mídia e atalhos nomeados, para pedir coisas **sem sair do jogo**.
//!
//! As teclas de mídia do Windows (`VK_MEDIA_*`) são do sistema operacional, não do
//! aplicativo: o Spotify obedece a elas sem API, sem foco na janela, com o jogo em
//! tela cheia na frente.
//!
//! A guarda aqui não é perguntar — é a **lista fechada**. Ela não manda tecla
//! arbitrária; manda um dos [`atalhos`]. Mandar de fato é com o programa.
use vstd::prelude::*;
use crate::texto::{
    acrescentar_str, aparar_str, caracteres, caracteres_de, copiar, igual_str,
    minusculas, para_minusculas, string_de, aparado,
};

verus! {

pub const VK_SHIFT: u16 = 0x10;

pub const VK_CONTROL: u16 = 0x11;

pub const VK_VOLUME_MUTE: u16 = 0xAD;

pub const VK_VOLUME_DOWN: u16 = 0xAE;

pub const VK_VOLUME_UP: u16 = 0xAF;

pub const VK_MEDIA_NEXT: u16 = 0xB0;

pub const VK_MEDIA_PREV: u16 = 0xB1;

pub const VK_MEDIA_STOP: u16 = 0xB2;

pub const VK_MEDIA_PLAY_PAUSE: u16 = 0xB3;

/// Como um atalho age no mundo.
#[derive(Clone, Debug)]
pub enum Como {
    /// Tecla do sistema: funciona sem foco, e age às cegas.
    Teclas(Vec<u16>),
    /// Controle nomeado dentro de um aplicativo, via UIAutomation: lê o estado,
    /// age, e confirma que mudou. `janela` é casada por trecho do título.
    Controle { janela: &'static str, nome: &'static str },
    /// Botão nomeado que só aciona (não alterna).
    Botao { janela: &'static str, nome: &'static str },
    /// Pela ponte — socket para a extensão dentro do Spotify.
    Ponte { cmd: &'static str },
    /// Busca e toca pelo nome: escreve no campo de busca e aciona o resultado.
    TocarPorNome { janela: &'static str, campo: &'static str },
}

/// [`Como`] visto por valor.
pub enum ComoS {
    Teclas(Seq<u16>),
    Controle(Seq<char>, Seq<char>),
    Botao(Seq<char>, Seq<char>),
    Ponte(Seq<char>),
    TocarPorNome(Seq<char>, Seq<char>),
}

impl View for Como {
    type V = ComoS;

    open spec fn view(&self) -> ComoS {
        match self {
            Como::Teclas(t) => ComoS::Teclas(t@),
            Como::Controle { janela, nome } => ComoS::Controle(janela@, nome@),
            Como::Botao { janela, nome } => ComoS::Botao(janela@, nome@),
            Como::Ponte { cmd } => ComoS::Ponte(cmd@),
            Como::TocarPorNome { janela, campo } => ComoS::TocarPorNome(janela@, campo@),
        }
    }
}

/// Os atalhos que ela sabe mandar, e nada além disso. Toda entrada se desfaz
/// apertando de novo ou apertando o contrário.
pub open spec fn tabela_atalhos() -> Seq<(Seq<char>, ComoS)> {
    seq![
        ("proxima_musica"@, ComoS::Teclas(seq![VK_MEDIA_NEXT])),
        ("musica_anterior"@, ComoS::Teclas(seq![VK_MEDIA_PREV])),
        ("pausar_musica"@, ComoS::Teclas(seq![VK_MEDIA_PLAY_PAUSE])),
        ("tocar_musica"@, ComoS::Teclas(seq![VK_MEDIA_PLAY_PAUSE])),
        ("parar_musica"@, ComoS::Teclas(seq![VK_MEDIA_STOP])),
        ("aumentar_volume"@, ComoS::Teclas(seq![VK_VOLUME_UP])),
        ("diminuir_volume"@, ComoS::Teclas(seq![VK_VOLUME_DOWN])),
        ("mudo"@, ComoS::Teclas(seq![VK_VOLUME_MUTE])),
        ("mutar_discord"@, ComoS::Controle("Discord.exe"@, "Silenciar"@)),
        ("ensurdecer_discord"@, ComoS::Controle("Discord.exe"@, "Desativar áudio"@)),
        ("tocar_faixa"@, ComoS::Ponte("play"@)),
        ("proxima_faixa"@, ComoS::Ponte("next"@)),
        ("faixa_anterior"@, ComoS::Ponte("prev"@)),
        ("alternar_musica"@, ComoS::Ponte("play_pause"@)),
        ("embaralhar"@, ComoS::Ponte("shuffle"@)),
        ("que_musica_e_essa"@, ComoS::Ponte("getdata"@)),
        ("tocar_faixa_na_tela"@, ComoS::TocarPorNome("Spotify.exe"@, "O que você quer ouvir"@)),
        ("tocar_playlist"@, ComoS::Botao("Spotify.exe"@, "Playlist"@)),
    ]
}

pub open spec fn vistas_atalhos(v: Seq<(&'static str, Como)>) -> Seq<(Seq<char>, ComoS)> {
    v.map_values(|a: (&'static str, Como)| (a.0@, a.1@))
}

fn teclas(t: u16) -> (r: Como)
    ensures
        r@ == ComoS::Teclas(seq![t]),
{
    let mut v: Vec<u16> = Vec::new();
    v.push(t);
    assert(v@ =~= seq![t]);
    Como::Teclas(v)
}

/// Os atalhos, em ordem.
#[verifier::rlimit(30)]
pub fn atalhos() -> (r: Vec<(&'static str, Como)>)
    ensures
        vistas_atalhos(r@) =~~= tabela_atalhos(),
{
    let mut a: Vec<(&'static str, Como)> = Vec::new();
    a.push(("proxima_musica", teclas(VK_MEDIA_NEXT)));
    a.push(("musica_anterior", teclas(VK_MEDIA_PREV)));
    a.push(("pausar_musica", teclas(VK_MEDIA_PLAY_PAUSE)));
    a.push(("tocar_musica", teclas(VK_MEDIA_PLAY_PAUSE)));
    a.push(("parar_musica", teclas(VK_MEDIA_STOP)));
    a.push(("aumentar_volume", teclas(VK_VOLUME_UP)));
    a.push(("diminuir_volume", teclas(VK_VOLUME_DOWN)));
    a.push(("mudo", teclas(VK_VOLUME_MUTE)));
    a.push(("mutar_discord", Como::Controle { janela: "Discord.exe", nome: "Silenciar" }));
    a.push(("ensurdecer_discord", Como::Controle { janela: "Discord.exe", nome: "Desativar áudio" }));
    a.push(("tocar_faixa", Como::Ponte { cmd: "play" }));
    a.push(("proxima_faixa", Como::Ponte { cmd: "next" }));
    a.push(("faixa_anterior", Como::Ponte { cmd: "prev" }));
    a.push(("alternar_musica", Como::Ponte { cmd: "play_pause" }));
    a.push(("embaralhar", Como::Ponte { cmd: "shuffle" }));
    a.push(("que_musica_e_essa", Como::Ponte { cmd: "getdata" }));
    a.push(
        (
            "tocar_faixa_na_tela",
            Como::TocarPorNome { janela: "Spotify.exe", campo: "O que você quer ouvir" },
        ),
    );
    a.push(("tocar_playlist", Como::Botao { janela: "Spotify.exe", nome: "Playlist" }));
    a
}

/// A posição do primeiro atalho com este nome.
pub open spec fn posicao_atalho(t: Seq<(Seq<char>, ComoS)>, nome: Seq<char>) -> Option<nat>
    decreases t.len(),
{
    if t.len() == 0 {
        None
    } else {
        match posicao_atalho(t.drop_last(), nome) {
            Some(i) => Some(i),
            None => if t.last().0 == nome {
                Some((t.len() - 1) as nat)
            } else {
                None
            },
        }
    }
}

proof fn lema_posicao_atalho(t: Seq<(Seq<char>, ComoS)>, nome: Seq<char>)
    ensures
        match posicao_atalho(t, nome) {
            Some(i) => i < t.len() && t[i as int].0 == nome && forall|k: int|
                0 <= k < i ==> t[k].0 != nome,
            None => forall|k: int| 0 <= k < t.len() ==> t[k].0 != nome,
        },
    decreases t.len(),
{
    if t.len() > 0 {
        let w = t.drop_last();
        lema_posicao_atalho(w, nome);
        assert forall|k: int| 0 <= k < w.len() implies w[k] == t[k] by {}
        if posicao_atalho(w, nome) is None && t.last().0 != nome {
            assert forall|k: int| 0 <= k < t.len() implies t[k].0 != nome by {
                if k < w.len() {
                    assert(w[k].0 != nome);
                }
            }
        }
    }
}

/// O atalho com este nome, sem o branco das pontas e sem caixa.
pub open spec fn atalho_de(nome: Seq<char>) -> Option<ComoS> {
    match posicao_atalho(tabela_atalhos(), minusculas(aparado(nome))) {
        Some(i) => Some(tabela_atalhos()[i as int].1),
        None => None,
    }
}

/// O nome existe na lista?
pub fn como_de(nome: &str) -> (r: Option<Como>)
    ensures
        match atalho_de(nome@) {
            Some(c) => r matches Some(x) && x@ == c,
            None => r is None,
        },
{
    let t = aparar_str(nome);
    let ts = string_de(t.as_slice());
    let n = para_minusculas(ts.as_str());
    let nv = caracteres_de(&n);
    let lista = atalhos();
    let ghost tv = tabela_atalhos();
    proof {
        lema_posicao_atalho(tv, nv@);
        assert forall|k: int| 0 <= k < lista@.len() implies lista@[k].0@ == tv[k].0
            && lista@[k].1@ == tv[k].1 by {
            assert(vistas_atalhos(lista@)[k] == tv[k]);
        }
    }
    let mut i: usize = 0;
    while i < lista.len()
        invariant
            i <= lista@.len(),
            lista@.len() == tv.len(),
            tv == tabela_atalhos(),
            nv@ == minusculas(aparado(nome@)),
            forall|k: int| 0 <= k < lista@.len() ==> lista@[k].0@ == tv[k].0 && lista@[k].1@
                == tv[k].1,
            forall|k: int| 0 <= k < i ==> tv[k].0 != nv@,
            match posicao_atalho(tv, nv@) {
                Some(j) => j < tv.len() && tv[j as int].0 == nv@ && forall|k: int|
                    0 <= k < j ==> tv[k].0 != nv@,
                None => forall|k: int| 0 <= k < tv.len() ==> tv[k].0 != nv@,
            },
        decreases lista.len() - i,
    {
        if igual_str(nv.as_slice(), lista[i].0) {
            return Some(lista[i].1.clone_como());
        }
        i = i + 1;
    }
    None
}

impl Como {
    /// Uma cópia, com o mesmo valor.
    pub fn clone_como(&self) -> (r: Como)
        ensures
            r@ == self@,
    {
        match self {
            Como::Teclas(t) => {
                let mut v: Vec<u16> = Vec::new();
                let mut i: usize = 0;
                while i < t.len()
                    invariant
                        i <= t@.len(),
                        v@ == t@.take(i as int),
                    decreases t.len() - i,
                {
                    v.push(t[i]);
                    i = i + 1;
                    assert(v@ =~= t@.take(i as int));
                }
                assert(t@.take(t@.len() as int) =~= t@);
                Como::Teclas(v)
            },
            Como::Controle { janela, nome } => Como::Controle { janela, nome },
            Como::Botao { janela, nome } => Como::Botao { janela, nome },
            Como::Ponte { cmd } => Como::Ponte { cmd },
            Como::TocarPorNome { janela, campo } => Como::TocarPorNome { janela, campo },
        }
    }
}

/// Os nomes separados por `, `.
pub open spec fn nomes_juntos(t: Seq<(Seq<char>, ComoS)>) -> Seq<char>
    decreases t.len(),
{
    if t.len() == 0 {
        seq![]
    } else if t.len() == 1 {
        t[0].0
    } else {
        nomes_juntos(t.drop_last()) + ", "@ + t.last().0
    }
}

/// Os nomes, para a mensagem de erro dizer o que ela aceita.
pub fn nomes() -> (r: String)
    ensures
        r@ == nomes_juntos(tabela_atalhos()),
{
    let lista = atalhos();
    let ghost tv = tabela_atalhos();
    let mut s = String::new();
    let mut i: usize = 0;
    assert(tv.take(0) =~= Seq::<(Seq<char>, ComoS)>::empty());
    while i < lista.len()
        invariant
            i <= lista@.len(),
            vistas_atalhos(lista@) =~~= tv,
            tv == tabela_atalhos(),
            s@ == nomes_juntos(tv.take(i as int)),
        decreases lista.len() - i,
    {
        assert(tv.take(i + 1).drop_last() =~= tv.take(i as int));
        assert(tv[i as int].0 == lista@[i as int].0@) by {
            assert(vistas_atalhos(lista@)[i as int] == tv[i as int]);
        }
        if i > 0 {
            acrescentar_str(&mut s, ", ");
        }
        acrescentar_str(&mut s, lista[i].0);
        proof {
            if i == 0 {
                assert(tv.take(1) =~= seq![tv[0]]);
            }
        }
        i = i + 1;
    }
    assert(tv.take(lista@.len() as int) =~= tv);
    s
}

/// Pressiona na ordem, solta na ordem inversa: `(tecla, soltar)`.
///
/// A ordem inversa não é detalhe: soltar `ctrl` antes do `m` faria o `m` chegar
/// sozinho ao aplicativo.
pub open spec fn sequencia(t: Seq<u16>) -> Seq<(u16, bool)> {
    t.map_values(|k: u16| (k, false)) + t.reverse().map_values(|k: u16| (k, true))
}

/// A sequência de eventos de teclado para um atalho.
pub fn sequencia_de_teclas(t: &[u16]) -> (r: Vec<(u16, bool)>)
    ensures
        r@ == sequencia(t@),
{
    let mut r: Vec<(u16, bool)> = Vec::new();
    let mut i: usize = 0;
    while i < t.len()
        invariant
            i <= t@.len(),
            r@ == t@.take(i as int).map_values(|k: u16| (k, false)),
        decreases t.len() - i,
    {
        r.push((t[i], false));
        i = i + 1;
        assert(r@ =~= t@.take(i as int).map_values(|k: u16| (k, false)));
    }
    assert(t@.take(t@.len() as int) =~= t@);
    let mut j: usize = t.len();
    let ghost ida = r@;
    while j > 0
        invariant
            j <= t@.len(),
            r@ == ida + t@.reverse().take(t@.len() - j).map_values(|k: u16| (k, true)),
        decreases j,
    {
        j = j - 1;
        r.push((t[j], true));
        assert(t@.reverse()[t@.len() - j - 1] == t@[j as int]);
        assert(r@ =~= ida + t@.reverse().take(t@.len() - j).map_values(|k: u16| (k, true)));
    }
    assert(t@.reverse().take(t@.len() as int) =~= t@.reverse());
    r
}

/// Um campo de texto de um JSON plano: o que vem depois de `"chave":"`, até a aspa
/// que fecha, com a contrabarra valendo o caractere seguinte.
pub open spec fn campo_json_de(json: Seq<char>, chave: Seq<char>) -> Option<Seq<char>> {
    let marca = "\""@ + chave + "\":\""@;
    if crate::texto::contem(json, marca) {
        let i = choose|i: int| crate::texto::primeira(json, marca, i);
        ler_campo(json.subrange(i + marca.len(), json.len() as int))
    } else {
        None
    }
}

/// Lê até a aspa que fecha; `None` se ela não vem.
pub open spec fn ler_campo(s: Seq<char>) -> Option<Seq<char>>
    decreases s.len(),
{
    if s.len() == 0 {
        None
    } else if s[0] == '"' {
        Some(seq![])
    } else if s[0] == '\\' {
        let c = if s.len() >= 2 {
            s[1]
        } else {
            s[0]
        };
        let resto = if s.len() >= 2 {
            s.subrange(2, s.len() as int)
        } else {
            seq![]
        };
        match ler_campo(resto) {
            Some(r) => Some(seq![c] + r),
            None => None,
        }
    } else {
        match ler_campo(s.drop_first()) {
            Some(r) => Some(seq![s[0]] + r),
            None => None,
        }
    }
}

fn ler_campo_exec(s: &[char]) -> (r: Option<String>)
    ensures
        match ler_campo(s@) {
            Some(x) => r matches Some(y) && y@ == x,
            None => r is None,
        },
{
    let mut fora: Vec<char> = Vec::new();
    let mut i: usize = 0;
    assert(s@.subrange(0, s@.len() as int) =~= s@);
    while i < s.len()
        invariant
            i <= s@.len(),
            match ler_campo(s@.subrange(i as int, s@.len() as int)) {
                Some(x) => ler_campo(s@) == Some(fora@ + x),
                None => ler_campo(s@) is None,
            },
        decreases s.len() - i,
    {
        let ghost resto = s@.subrange(i as int, s@.len() as int);
        let c = s[i];
        if c == '"' {
            assert(ler_campo(resto) == Some(Seq::<char>::empty()));
            assert(fora@ + Seq::<char>::empty() =~= fora@);
            return Some(string_de(fora.as_slice()));
        } else if c == '\\' {
            if i + 1 < s.len() {
                fora.push(s[i + 1]);
                assert(resto.subrange(2, resto.len() as int) =~= s@.subrange(i + 2, s@.len() as int));
                i = i + 2;
            } else {
                fora.push(c);
                i = i + 1;
                assert(s@.subrange(i as int, s@.len() as int) =~= Seq::<char>::empty());
            }
        } else {
            fora.push(c);
            assert(resto.drop_first() =~= s@.subrange(i + 1, s@.len() as int));
            i = i + 1;
        }
        proof {
            let ghost novo = s@.subrange(i as int, s@.len() as int);
            match ler_campo(novo) {
                Some(x) => {
                    assert(fora@ + x =~= fora@.drop_last() + (seq![fora@.last()] + x));
                },
                None => {},
            }
        }
    }
    assert(s@.subrange(s@.len() as int, s@.len() as int) =~= Seq::<char>::empty());
    None
}

/// Puxa um campo de texto de um JSON plano, sem um parser inteiro: a resposta da
/// extensão é sempre plana (`{"ok":true,"track":"...","id":1}`).
pub fn campo_json(json: &str, chave: &str) -> (r: Option<String>)
    ensures
        match campo_json_de(json@, chave@) {
            Some(x) => r matches Some(y) && y@ == x,
            None => r is None,
        },
{
    let j = caracteres(json);
    let mut m = caracteres("\"");
    let c = caracteres(chave);
    crate::texto::acrescentar_vec(&mut m, c.as_slice());
    let fim = caracteres("\":\"");
    crate::texto::acrescentar_vec(&mut m, fim.as_slice());
    assert(m@ =~= "\""@ + chave@ + "\":\""@);
    let nm = m.len();
    match crate::texto::achar(j.as_slice(), m.as_slice()) {
        None => None,
        Some(i) => {
            assert(crate::texto::ocorre_em(j@, m@, i as int));
            assert(i + m@.len() <= j@.len());
            proof {
                assert(crate::texto::contem(j@, m@));
                let k = choose|k: int| crate::texto::primeira(j@, m@, k);
                crate::texto::lema_primeira_unica(j@, m@, i as int, k);
            }
            assert(nm == m@.len());
            assert(i + nm <= j.len());
            let ini: usize = i + nm;
            let resto = crate::texto::fatia(j.as_slice(), ini, j.len());
            ler_campo_exec(resto.as_slice())
        },
    }
}

/// A mensagem para um nome fora da lista: diz o que ela aceita.
pub open spec fn desconhecido_de(nome: Seq<char>) -> Seq<char> {
    "nao conheco o atalho "@ + crate::texto::depurado(nome) + ". conheco: "@ + nomes_juntos(
        tabela_atalhos(),
    )
}

/// A recusa de um atalho que não está na lista.
pub fn desconhecido(nome: &str) -> (r: String)
    ensures
        r@ == desconhecido_de(nome@),
{
    let mut s = copiar("nao conheco o atalho ");
    let d = crate::texto::depurar(nome);
    acrescentar_str(&mut s, d.as_str());
    acrescentar_str(&mut s, ". conheco: ");
    let n = nomes();
    acrescentar_str(&mut s, n.as_str());
    s
}

/// O que a extensão respondeu, para quem pediu: a faixa, se veio; o erro, se veio;
/// senão a resposta crua.
pub open spec fn resposta_da_ponte_de(nome: Seq<char>, r: Seq<char>) -> Result<Seq<char>, Seq<char>> {
    match campo_json_de(r, "track"@) {
        Some(t) if t.len() > 0 => Ok(nome + ": "@ + t),
        _ => match campo_json_de(r, "error"@) {
            Some(e) if e.len() > 0 => Err(e),
            _ => Ok(nome + ": "@ + r),
        },
    }
}

pub fn resposta_da_ponte(nome: &str, r: &str) -> (x: Result<String, String>)
    ensures
        match resposta_da_ponte_de(nome@, r@) {
            Ok(t) => x matches Ok(y) && y@ == t,
            Err(e) => x matches Err(y) && y@ == e,
        },
{
    match campo_json(r, "track") {
        Some(t) => {
            if caracteres_de(&t).len() > 0 {
                let mut s = copiar(nome);
                acrescentar_str(&mut s, ": ");
                acrescentar_str(&mut s, t.as_str());
                return Ok(s);
            }
        },
        None => {},
    }
    match campo_json(r, "error") {
        Some(e) => {
            if caracteres_de(&e).len() > 0 {
                return Err(e);
            }
        },
        None => {},
    }
    let mut s = copiar(nome);
    acrescentar_str(&mut s, ": ");
    acrescentar_str(&mut s, r);
    Ok(s)
}


/// O que mandar para um nome: o jeito de agir, se o nome está na lista; a recusa
/// que diz o que ela aceita, se não está.
pub fn escolher(nome: &str) -> (r: Result<Como, String>)
    ensures
        match atalho_de(nome@) {
            Some(c) => r matches Ok(x) && x@ == c,
            None => r matches Err(e) && e@ == desconhecido_de(nome@),
        },
{
    match como_de(nome) {
        Some(c) => Ok(c),
        None => Err(desconhecido(nome)),
    }
}

/// Cada atalho de tecla manda a tecla virtual que o nome diz (os códigos do
/// Windows): aumentar o volume é `0xAF`, diminuir é `0xAE`, mudo é `0xAD`; a
/// próxima faixa é `0xB0`, a anterior `0xB1`, parar `0xB2`, e tocar ou pausar é
/// `0xB3`. O nome vale sem o branco das pontas e sem caixa.
pub proof fn lei_cada_atalho_manda_a_tecla_do_nome(nome: Seq<char>)
    ensures
        minusculas(aparado(nome)) == "aumentar_volume"@ ==> atalho_de(nome) == Some(ComoS::Teclas(seq![0xAFu16])),
        minusculas(aparado(nome)) == "diminuir_volume"@ ==> atalho_de(nome) == Some(ComoS::Teclas(seq![0xAEu16])),
        minusculas(aparado(nome)) == "mudo"@ ==> atalho_de(nome) == Some(ComoS::Teclas(seq![0xADu16])),
        minusculas(aparado(nome)) == "proxima_musica"@ ==> atalho_de(nome) == Some(ComoS::Teclas(seq![0xB0u16])),
        minusculas(aparado(nome)) == "musica_anterior"@ ==> atalho_de(nome) == Some(ComoS::Teclas(seq![0xB1u16])),
        minusculas(aparado(nome)) == "parar_musica"@ ==> atalho_de(nome) == Some(ComoS::Teclas(seq![0xB2u16])),
        minusculas(aparado(nome)) == "pausar_musica"@ ==> atalho_de(nome) == Some(ComoS::Teclas(seq![0xB3u16])),
        minusculas(aparado(nome)) == "tocar_musica"@ ==> atalho_de(nome) == Some(ComoS::Teclas(seq![0xB3u16])),
{
    reveal_strlit("proxima_musica");
    reveal_strlit("musica_anterior");
    reveal_strlit("pausar_musica");
    reveal_strlit("tocar_musica");
    reveal_strlit("parar_musica");
    reveal_strlit("aumentar_volume");
    reveal_strlit("diminuir_volume");
    reveal_strlit("mudo");
    let t = tabela_atalhos();
    let n = minusculas(aparado(nome));
    lema_posicao_atalho(t, n);
    assert(t[0].0 == "proxima_musica"@);
    assert(t[1].0 == "musica_anterior"@);
    assert(t[2].0 == "pausar_musica"@);
    assert(t[3].0 == "tocar_musica"@);
    assert(t[4].0 == "parar_musica"@);
    assert(t[5].0 == "aumentar_volume"@);
    assert(t[6].0 == "diminuir_volume"@);
    assert(t[7].0 == "mudo"@);
    if n == "proxima_musica"@ {
    }
    if n == "musica_anterior"@ {
        assert(t[0].0.len() != n.len());
    }
    if n == "pausar_musica"@ {
        assert(t[0].0.len() != n.len());
        assert(t[1].0.len() != n.len());
    }
    if n == "tocar_musica"@ {
        assert(t[0].0.len() != n.len());
        assert(t[1].0.len() != n.len());
        assert(t[2].0.len() != n.len());
    }
    if n == "parar_musica"@ {
        assert(t[0].0.len() != n.len());
        assert(t[1].0.len() != n.len());
        assert(t[2].0.len() != n.len());
        assert(t[3].0[0] != n[0]);
    }
    if n == "aumentar_volume"@ {
        assert(t[0].0.len() != n.len());
        assert(t[1].0[0] != n[0]);
        assert(t[2].0.len() != n.len());
        assert(t[3].0.len() != n.len());
        assert(t[4].0.len() != n.len());
    }
    if n == "diminuir_volume"@ {
        assert(t[0].0.len() != n.len());
        assert(t[1].0[0] != n[0]);
        assert(t[2].0.len() != n.len());
        assert(t[3].0.len() != n.len());
        assert(t[4].0.len() != n.len());
        assert(t[5].0[0] != n[0]);
    }
    if n == "mudo"@ {
        assert(t[0].0.len() != n.len());
        assert(t[1].0.len() != n.len());
        assert(t[2].0.len() != n.len());
        assert(t[3].0.len() != n.len());
        assert(t[4].0.len() != n.len());
        assert(t[5].0.len() != n.len());
        assert(t[6].0.len() != n.len());
    }
}

/// Os outros atalhos vão pelo controle, pela ponte ou pelo botão que o nome diz:
/// silenciar e desativar o áudio no Discord; tocar, próxima, anterior, alternar,
/// embaralhar e perguntar a faixa pela ponte do Spotify; tocar pelo nome no campo
/// de busca do Spotify; e o botão da playlist.
pub proof fn lei_cada_atalho_vai_pelo_caminho_do_nome(nome: Seq<char>)
    ensures
        minusculas(aparado(nome)) == "mutar_discord"@ ==> atalho_de(nome) == Some(ComoS::Controle("Discord.exe"@, "Silenciar"@)),
        minusculas(aparado(nome)) == "ensurdecer_discord"@ ==> atalho_de(nome) == Some(ComoS::Controle("Discord.exe"@, "Desativar áudio"@)),
        minusculas(aparado(nome)) == "tocar_faixa"@ ==> atalho_de(nome) == Some(ComoS::Ponte("play"@)),
        minusculas(aparado(nome)) == "proxima_faixa"@ ==> atalho_de(nome) == Some(ComoS::Ponte("next"@)),
        minusculas(aparado(nome)) == "faixa_anterior"@ ==> atalho_de(nome) == Some(ComoS::Ponte("prev"@)),
        minusculas(aparado(nome)) == "alternar_musica"@ ==> atalho_de(nome) == Some(ComoS::Ponte("play_pause"@)),
        minusculas(aparado(nome)) == "embaralhar"@ ==> atalho_de(nome) == Some(ComoS::Ponte("shuffle"@)),
        minusculas(aparado(nome)) == "que_musica_e_essa"@ ==> atalho_de(nome) == Some(ComoS::Ponte("getdata"@)),
        minusculas(aparado(nome)) == "tocar_faixa_na_tela"@ ==> atalho_de(nome) == Some(ComoS::TocarPorNome("Spotify.exe"@, "O que você quer ouvir"@)),
        minusculas(aparado(nome)) == "tocar_playlist"@ ==> atalho_de(nome) == Some(ComoS::Botao("Spotify.exe"@, "Playlist"@)),
{
    reveal_strlit("proxima_musica");
    reveal_strlit("musica_anterior");
    reveal_strlit("pausar_musica");
    reveal_strlit("tocar_musica");
    reveal_strlit("parar_musica");
    reveal_strlit("aumentar_volume");
    reveal_strlit("diminuir_volume");
    reveal_strlit("mudo");
    reveal_strlit("mutar_discord");
    reveal_strlit("ensurdecer_discord");
    reveal_strlit("tocar_faixa");
    reveal_strlit("proxima_faixa");
    reveal_strlit("faixa_anterior");
    reveal_strlit("alternar_musica");
    reveal_strlit("embaralhar");
    reveal_strlit("que_musica_e_essa");
    reveal_strlit("tocar_faixa_na_tela");
    reveal_strlit("tocar_playlist");
    let t = tabela_atalhos();
    let n = minusculas(aparado(nome));
    lema_posicao_atalho(t, n);
    assert(t[0].0 == "proxima_musica"@);
    assert(t[1].0 == "musica_anterior"@);
    assert(t[2].0 == "pausar_musica"@);
    assert(t[3].0 == "tocar_musica"@);
    assert(t[4].0 == "parar_musica"@);
    assert(t[5].0 == "aumentar_volume"@);
    assert(t[6].0 == "diminuir_volume"@);
    assert(t[7].0 == "mudo"@);
    assert(t[8].0 == "mutar_discord"@);
    assert(t[9].0 == "ensurdecer_discord"@);
    assert(t[10].0 == "tocar_faixa"@);
    assert(t[11].0 == "proxima_faixa"@);
    assert(t[12].0 == "faixa_anterior"@);
    assert(t[13].0 == "alternar_musica"@);
    assert(t[14].0 == "embaralhar"@);
    assert(t[15].0 == "que_musica_e_essa"@);
    assert(t[16].0 == "tocar_faixa_na_tela"@);
    assert(t[17].0 == "tocar_playlist"@);
    if n == "mutar_discord"@ {
        assert(t[0].0.len() != n.len());
        assert(t[1].0.len() != n.len());
        assert(t[2].0[0] != n[0]);
        assert(t[3].0.len() != n.len());
        assert(t[4].0.len() != n.len());
        assert(t[5].0.len() != n.len());
        assert(t[6].0.len() != n.len());
        assert(t[7].0.len() != n.len());
    }
    if n == "ensurdecer_discord"@ {
        assert(t[0].0.len() != n.len());
        assert(t[1].0.len() != n.len());
        assert(t[2].0.len() != n.len());
        assert(t[3].0.len() != n.len());
        assert(t[4].0.len() != n.len());
        assert(t[5].0.len() != n.len());
        assert(t[6].0.len() != n.len());
        assert(t[7].0.len() != n.len());
        assert(t[8].0.len() != n.len());
    }
    if n == "tocar_faixa"@ {
        assert(t[0].0.len() != n.len());
        assert(t[1].0.len() != n.len());
        assert(t[2].0.len() != n.len());
        assert(t[3].0.len() != n.len());
        assert(t[4].0.len() != n.len());
        assert(t[5].0.len() != n.len());
        assert(t[6].0.len() != n.len());
        assert(t[7].0.len() != n.len());
        assert(t[8].0.len() != n.len());
        assert(t[9].0.len() != n.len());
    }
    if n == "proxima_faixa"@ {
        assert(t[0].0.len() != n.len());
        assert(t[1].0.len() != n.len());
        assert(t[2].0[1] != n[1]);
        assert(t[3].0.len() != n.len());
        assert(t[4].0.len() != n.len());
        assert(t[5].0.len() != n.len());
        assert(t[6].0.len() != n.len());
        assert(t[7].0.len() != n.len());
        assert(t[8].0[0] != n[0]);
        assert(t[9].0.len() != n.len());
        assert(t[10].0.len() != n.len());
    }
    if n == "faixa_anterior"@ {
        assert(t[0].0[0] != n[0]);
        assert(t[1].0.len() != n.len());
        assert(t[2].0.len() != n.len());
        assert(t[3].0.len() != n.len());
        assert(t[4].0.len() != n.len());
        assert(t[5].0.len() != n.len());
        assert(t[6].0.len() != n.len());
        assert(t[7].0.len() != n.len());
        assert(t[8].0.len() != n.len());
        assert(t[9].0.len() != n.len());
        assert(t[10].0.len() != n.len());
        assert(t[11].0.len() != n.len());
    }
    if n == "alternar_musica"@ {
        assert(t[0].0.len() != n.len());
        assert(t[1].0[0] != n[0]);
        assert(t[2].0.len() != n.len());
        assert(t[3].0.len() != n.len());
        assert(t[4].0.len() != n.len());
        assert(t[5].0[1] != n[1]);
        assert(t[6].0[0] != n[0]);
        assert(t[7].0.len() != n.len());
        assert(t[8].0.len() != n.len());
        assert(t[9].0.len() != n.len());
        assert(t[10].0.len() != n.len());
        assert(t[11].0.len() != n.len());
        assert(t[12].0.len() != n.len());
    }
    if n == "embaralhar"@ {
        assert(t[0].0.len() != n.len());
        assert(t[1].0.len() != n.len());
        assert(t[2].0.len() != n.len());
        assert(t[3].0.len() != n.len());
        assert(t[4].0.len() != n.len());
        assert(t[5].0.len() != n.len());
        assert(t[6].0.len() != n.len());
        assert(t[7].0.len() != n.len());
        assert(t[8].0.len() != n.len());
        assert(t[9].0.len() != n.len());
        assert(t[10].0.len() != n.len());
        assert(t[11].0.len() != n.len());
        assert(t[12].0.len() != n.len());
        assert(t[13].0.len() != n.len());
    }
    if n == "que_musica_e_essa"@ {
        assert(t[0].0.len() != n.len());
        assert(t[1].0.len() != n.len());
        assert(t[2].0.len() != n.len());
        assert(t[3].0.len() != n.len());
        assert(t[4].0.len() != n.len());
        assert(t[5].0.len() != n.len());
        assert(t[6].0.len() != n.len());
        assert(t[7].0.len() != n.len());
        assert(t[8].0.len() != n.len());
        assert(t[9].0.len() != n.len());
        assert(t[10].0.len() != n.len());
        assert(t[11].0.len() != n.len());
        assert(t[12].0.len() != n.len());
        assert(t[13].0.len() != n.len());
        assert(t[14].0.len() != n.len());
    }
    if n == "tocar_faixa_na_tela"@ {
        assert(t[0].0.len() != n.len());
        assert(t[1].0.len() != n.len());
        assert(t[2].0.len() != n.len());
        assert(t[3].0.len() != n.len());
        assert(t[4].0.len() != n.len());
        assert(t[5].0.len() != n.len());
        assert(t[6].0.len() != n.len());
        assert(t[7].0.len() != n.len());
        assert(t[8].0.len() != n.len());
        assert(t[9].0.len() != n.len());
        assert(t[10].0.len() != n.len());
        assert(t[11].0.len() != n.len());
        assert(t[12].0.len() != n.len());
        assert(t[13].0.len() != n.len());
        assert(t[14].0.len() != n.len());
        assert(t[15].0.len() != n.len());
    }
    if n == "tocar_playlist"@ {
        assert(t[0].0[0] != n[0]);
        assert(t[1].0.len() != n.len());
        assert(t[2].0.len() != n.len());
        assert(t[3].0.len() != n.len());
        assert(t[4].0.len() != n.len());
        assert(t[5].0.len() != n.len());
        assert(t[6].0.len() != n.len());
        assert(t[7].0.len() != n.len());
        assert(t[8].0.len() != n.len());
        assert(t[9].0.len() != n.len());
        assert(t[10].0.len() != n.len());
        assert(t[11].0.len() != n.len());
        assert(t[12].0[0] != n[0]);
        assert(t[13].0.len() != n.len());
        assert(t[14].0.len() != n.len());
        assert(t[15].0.len() != n.len());
        assert(t[16].0.len() != n.len());
    }
}

} // verus!
