//! Frase que se diz → atalho que ela executa.
//!
//! A tabela de gatilhos é dado, não código: cada linha diz um atalho e as frases
//! que o disparam. O casamento tem três níveis: o gatilho aparece literal no
//! pedido; aparece depois de normalizar (sem acento, só letra e número); ou as
//! palavras fortes do gatilho cobrem ao menos 66% das dele, com teto abaixo do
//! nível normalizado. Empate vai para o gatilho mais longo. O alvo é o que sobra
//! do pedido depois de tirar o gatilho.
//!
//! A pontuação é uma razão exata entre inteiros: `1`, `19/20`, ou a cobertura
//! `comuns/total` limitada a `9/10`.
use vstd::prelude::*;
use crate::servidor::{palavras, palavras_de};
use crate::texto::{
    alfanumerico_ascii, aparado, aparar, caracteres, caracteres_de, contem, e_alfanumerico_ascii,
    caixa_baixa_ascii, iguais, igual_str, minuscula, minuscula_de, string_de, vistas,
};

verus! {

// ───────────────────────────── normalizar

/// Os acentos do português, tirados.
pub open spec fn sem_acento(c: char) -> char {
    if c == 'á' || c == 'à' || c == 'ã' || c == 'â' || c == 'ä' {
        'a'
    } else if c == 'é' || c == 'ê' || c == 'è' || c == 'ë' {
        'e'
    } else if c == 'í' || c == 'î' || c == 'ì' || c == 'ï' {
        'i'
    } else if c == 'ó' || c == 'õ' || c == 'ô' || c == 'ò' || c == 'ö' {
        'o'
    } else if c == 'ú' || c == 'û' || c == 'ù' || c == 'ü' {
        'u'
    } else if c == 'ç' {
        'c'
    } else if c == 'ñ' {
        'n'
    } else {
        c
    }
}

fn tirar_acento(c: char) -> (r: char)
    ensures
        r == sem_acento(c),
{
    if c == 'á' || c == 'à' || c == 'ã' || c == 'â' || c == 'ä' {
        'a'
    } else if c == 'é' || c == 'ê' || c == 'è' || c == 'ë' {
        'e'
    } else if c == 'í' || c == 'î' || c == 'ì' || c == 'ï' {
        'i'
    } else if c == 'ó' || c == 'õ' || c == 'ô' || c == 'ò' || c == 'ö' {
        'o'
    } else if c == 'ú' || c == 'û' || c == 'ù' || c == 'ü' {
        'u'
    } else if c == 'ç' {
        'c'
    } else if c == 'ñ' {
        'n'
    } else {
        c
    }
}

/// Minúsculas e sem acento, caractere a caractere; o que não é letra nem número
/// vira um espaço só, por corrida.
pub open spec fn juntar(s: Seq<char>) -> Seq<char>
    decreases s.len(),
{
    if s.len() == 0 {
        seq![]
    } else {
        let f = juntar(s.drop_last());
        let c = sem_acento(minuscula(s.last()));
        if e_alfanumerico_ascii(c) {
            f.push(c)
        } else if f.len() > 0 && f.last() == ' ' {
            f
        } else {
            f.push(' ')
        }
    }
}

/// Minúsculas, sem acento, só letra e número, espaço colapsado, sem espaço nas
/// pontas.
pub open spec fn normalizado(s: Seq<char>) -> Seq<char> {
    aparado(juntar(s))
}

/// Em todo caractere ASCII do texto, a minúscula é a do ASCII.
pub open spec fn minusculas_ascii_em(s: Seq<char>) -> bool {
    forall|j: int| 0 <= j < s.len() && (s[j] as u32) < 128 ==> minuscula(#[trigger] s[j]) == caixa_baixa_ascii(s[j])
}

fn normalizar_chars(texto: &str) -> (r: Vec<char>)
    ensures
        r@ == normalizado(texto@),
        minusculas_ascii_em(texto@),
{
    let cs = caracteres(texto);
    let mut fora: Vec<char> = Vec::new();
    let mut i: usize = 0;
    assert(texto@.take(0) =~= Seq::<char>::empty());
    while i < cs.len()
        invariant
            i <= cs@.len(),
            cs@ == texto@,
            fora@ == juntar(texto@.take(i as int)),
            forall|j: int| 0 <= j < i && (texto@[j] as u32) < 128 ==> minuscula(#[trigger] texto@[j]) == caixa_baixa_ascii(texto@[j]),
        decreases cs.len() - i,
    {
        assert(texto@.take(i + 1).drop_last() =~= texto@.take(i as int));
        let c = tirar_acento(minuscula_de(cs[i]));
        if alfanumerico_ascii(c) {
            fora.push(c);
        } else if !(fora.len() > 0 && fora[fora.len() - 1] == ' ') {
            fora.push(' ');
        }
        i = i + 1;
    }
    assert(texto@.take(cs@.len() as int) =~= texto@);
    aparar(fora.as_slice())
}

/// Minúsculas, sem acento, só letra e número, espaço colapsado. Na parte ASCII do
/// texto, a minúscula é a do ASCII.
pub fn normalizar(texto: &str) -> (r: String)
    ensures
        r@ == normalizado(texto@),
        minusculas_ascii_em(texto@),
{
    let v = normalizar_chars(texto);
    string_de(v.as_slice())
}

// ───────────────────────────── a tabela

/// Uma linha da tabela já separada.
#[derive(Clone, Debug)]
pub struct Entrada {
    pub atalho: String,
    pub gatilhos: Vec<String>,
    /// Marcado com `*` na tabela: este atalho recebe um alvo.
    pub com_alvo: bool,
}

/// [`Entrada`] vista por valor.
pub struct EntradaS {
    pub atalho: Seq<char>,
    pub gatilhos: Seq<Seq<char>>,
    pub com_alvo: bool,
}

pub open spec fn textos(v: Seq<String>) -> Seq<Seq<char>> {
    v.map_values(|x: String| x@)
}

impl View for Entrada {
    type V = EntradaS;

    open spec fn view(&self) -> EntradaS {
        EntradaS { atalho: self.atalho@, gatilhos: textos(self.gatilhos@), com_alvo: self.com_alvo }
    }
}

pub open spec fn vistas_entradas(v: Seq<Entrada>) -> Seq<EntradaS> {
    v.map_values(|e: Entrada| e@)
}

/// Só os não vazios, na ordem.
pub open spec fn nao_vazios(ss: Seq<Seq<char>>) -> Seq<Seq<char>>
    decreases ss.len(),
{
    if ss.len() == 0 {
        seq![]
    } else {
        let r = nao_vazios(ss.drop_last());
        if ss.last().len() > 0 {
            r.push(ss.last())
        } else {
            r
        }
    }
}

/// Os gatilhos de uma linha: separados por vírgula, aparados, sem os vazios.
pub open spec fn gatilhos_de(resto: Seq<char>) -> Seq<Seq<char>> {
    nao_vazios(crate::texto::pedacos_por(resto, ',').map_values(|g: Seq<char>| aparado(g)))
}

/// Sem as estrelas do fim.
pub open spec fn sem_estrelas(s: Seq<char>) -> Seq<char>
    decreases s.len(),
{
    if s.len() > 0 && s.last() == '*' {
        sem_estrelas(s.drop_last())
    } else {
        s
    }
}

/// Uma linha `atalho | gatilho, gatilho, ...`. Linha vazia, comentário (`#`),
/// linha sem `|` ou sem gatilho nenhum não dão entrada.
pub open spec fn entrada_da_linha(l: Seq<char>) -> Option<EntradaS> {
    let t = aparado(l);
    if t.len() == 0 || t[0] == '#' {
        None
    } else {
        match crate::registro::pos_de(t, '|') {
            None => None,
            Some(k) => {
                let gs = gatilhos_de(t.subrange(k as int + 1, t.len() as int));
                if gs.len() == 0 {
                    None
                } else {
                    let nome = aparado(t.subrange(0, k as int));
                    Some(
                        EntradaS {
                            atalho: sem_estrelas(nome),
                            gatilhos: gs,
                            com_alvo: nome.len() > 0 && nome.last() == '*',
                        },
                    )
                }
            },
        }
    }
}

pub open spec fn ler_linhas(ls: Seq<Seq<char>>) -> Seq<EntradaS>
    decreases ls.len(),
{
    if ls.len() == 0 {
        seq![]
    } else {
        let r = ler_linhas(ls.drop_last());
        match entrada_da_linha(ls.last()) {
            Some(e) => r.push(e),
            None => r,
        }
    }
}

fn sem_estrelas_exec(s: &[char]) -> (r: Vec<char>)
    ensures
        r@ == sem_estrelas(s@),
{
    let mut n: usize = s.len();
    assert(s@.take(n as int) =~= s@);
    while n > 0 && s[n - 1] == '*'
        invariant
            n <= s@.len(),
            sem_estrelas(s@.take(n as int)) == sem_estrelas(s@),
        decreases n,
    {
        assert(s@.take(n as int).drop_last() =~= s@.take(n - 1));
        n = n - 1;
    }
    crate::texto::fatia(s, 0, n)
}

fn entrada_da_linha_exec(l: &[char]) -> (r: Option<Entrada>)
    ensures
        match entrada_da_linha(l@) {
            Some(e) => r matches Some(x) && x@ == e,
            None => r is None,
        },
{
    let t = aparar(l);
    if t.len() == 0 || t[0] == '#' {
        return None;
    }
    proof {
        crate::registro::lema_pos_de(t@, '|');
    }
    let k = match crate::registro::pos_char(t.as_slice(), '|') {
        None => {
            return None;
        },
        Some(k) => k,
    };
    let resto = crate::texto::fatia(t.as_slice(), k + 1, t.len());
    let pedacos = crate::texto::cortar(resto.as_slice(), ',');
    let ghost ap = crate::texto::pedacos_por(resto@, ',').map_values(|g: Seq<char>| aparado(g));
    let mut gs: Vec<String> = Vec::new();
    let mut i: usize = 0;
    assert(ap.take(0) =~= Seq::<Seq<char>>::empty());
    assert(textos(gs@) =~= Seq::<Seq<char>>::empty());
    while i < pedacos.len()
        invariant
            i <= pedacos@.len(),
            vistas(pedacos@) == crate::texto::pedacos_por(resto@, ','),
            ap == crate::texto::pedacos_por(resto@, ',').map_values(|g: Seq<char>| aparado(g)),
            textos(gs@) == nao_vazios(ap.take(i as int)),
        decreases pedacos.len() - i,
    {
        assert(ap.take(i + 1).drop_last() =~= ap.take(i as int));
        assert(ap.take(i + 1).last() == aparado(pedacos@[i as int]@));
        let g = aparar(pedacos[i].as_slice());
        if g.len() > 0 {
            let ghost antes = gs@;
            gs.push(string_de(g.as_slice()));
            assert(textos(gs@) =~= textos(antes).push(g@));
        }
        i = i + 1;
    }
    assert(ap.take(pedacos@.len() as int) =~= ap);
    if gs.len() == 0 {
        return None;
    }
    let cabeca = crate::texto::fatia(t.as_slice(), 0, k);
    let nome = aparar(cabeca.as_slice());
    let com_alvo = nome.len() > 0 && nome[nome.len() - 1] == '*';
    let atalho = sem_estrelas_exec(nome.as_slice());
    Some(Entrada { atalho: string_de(atalho.as_slice()), gatilhos: gs, com_alvo })
}

/// As entradas de uma tabela em texto, uma por linha.
pub fn ler(texto: &str) -> (r: Vec<Entrada>)
    ensures
        vistas_entradas(r@) == ler_linhas(crate::diario::linhas(texto@)),
{
    let ls = crate::diario::linhas_de_texto(texto);
    let ghost lv = crate::diario::linhas(texto@);
    let mut fora: Vec<Entrada> = Vec::new();
    let mut i: usize = 0;
    assert(lv.take(0) =~= Seq::<Seq<char>>::empty());
    assert(vistas_entradas(fora@) =~= Seq::<EntradaS>::empty());
    while i < ls.len()
        invariant
            i <= ls@.len(),
            vistas(ls@) == lv,
            vistas_entradas(fora@) == ler_linhas(lv.take(i as int)),
        decreases ls.len() - i,
    {
        assert(lv.take(i + 1).drop_last() =~= lv.take(i as int));
        assert(lv.take(i + 1).last() == ls@[i as int]@);
        let ghost antes = fora@;
        match entrada_da_linha_exec(ls[i].as_slice()) {
            Some(e) => {
                fora.push(e);
                assert(vistas_entradas(fora@) =~= vistas_entradas(antes).push(e@));
            },
            None => {},
        }
        i = i + 1;
    }
    assert(lv.take(ls@.len() as int) =~= lv);
    fora
}

// ───────────────────────────── palavras

/// As palavras de pelo menos dois caracteres.
pub open spec fn longas(ws: Seq<Seq<char>>) -> Seq<Seq<char>>
    decreases ws.len(),
{
    if ws.len() == 0 {
        seq![]
    } else {
        let r = longas(ws.drop_last());
        if ws.last().len() >= 2 {
            r.push(ws.last())
        } else {
            r
        }
    }
}

/// As palavras do texto normalizado, de dois caracteres ou mais.
pub open spec fn palavras_norm(texto: Seq<char>) -> Seq<Seq<char>> {
    longas(palavras(normalizado(texto)))
}

/// Palavras que não distinguem nada, e por isso não contam na cobertura:
/// gramaticais, cortesia e enchimento. `para` e `nao` ficam de fora de propósito.
pub open spec fn e_vazia(p: Seq<char>) -> bool {
    p == "os"@
    || p == "as"@
    || p == "no"@
    || p == "na"@
    || p == "nos"@
    || p == "nas"@
    || p == "em"@
    || p == "de"@
    || p == "do"@
    || p == "da"@
    || p == "ai"@
    || p == "um"@
    || p == "uma"@
    || p == "que"@
    || p == "esta"@
    || p == "isso"@
    || p == "aqui"@
    || p == "pra"@
    || p == "mais"@
    || p == "por"@
    || p == "favor"@
    || p == "pfv"@
    || p == "agora"@
    || p == "ja"@
    || p == "entao"@
}

fn vazia(p: &[char]) -> (r: bool)
    ensures
        r == e_vazia(p@),
{
    igual_str(p, "os")
        || igual_str(p, "as")
        || igual_str(p, "no")
        || igual_str(p, "na")
        || igual_str(p, "nos")
        || igual_str(p, "nas")
        || igual_str(p, "em")
        || igual_str(p, "de")
        || igual_str(p, "do")
        || igual_str(p, "da")
        || igual_str(p, "ai")
        || igual_str(p, "um")
        || igual_str(p, "uma")
        || igual_str(p, "que")
        || igual_str(p, "esta")
        || igual_str(p, "isso")
        || igual_str(p, "aqui")
        || igual_str(p, "pra")
        || igual_str(p, "mais")
        || igual_str(p, "por")
        || igual_str(p, "favor")
        || igual_str(p, "pfv")
        || igual_str(p, "agora")
        || igual_str(p, "ja")
        || igual_str(p, "entao")
}

/// Sem as palavras vazias.
pub open spec fn sem_vazias(ws: Seq<Seq<char>>) -> Seq<Seq<char>>
    decreases ws.len(),
{
    if ws.len() == 0 {
        seq![]
    } else {
        let r = sem_vazias(ws.drop_last());
        if e_vazia(ws.last()) {
            r
        } else {
            r.push(ws.last())
        }
    }
}

/// As palavras que de fato distinguem o texto.
pub open spec fn fortes(texto: Seq<char>) -> Seq<Seq<char>> {
    sem_vazias(palavras_norm(texto))
}

fn copiar_palavra(v: &[char]) -> (r: Vec<char>)
    ensures
        r@ == v@,
{
    crate::texto::fatia(v, 0, v.len())
}

fn palavras_norm_exec(texto: &str) -> (r: Vec<Vec<char>>)
    ensures
        vistas(r@) == palavras_norm(texto@),
{
    let n = normalizar_chars(texto);
    let ws = palavras_de(n.as_slice());
    let mut r: Vec<Vec<char>> = Vec::new();
    let mut i: usize = 0;
    let ghost wv = palavras(normalizado(texto@));
    assert(wv.take(0) =~= Seq::<Seq<char>>::empty());
    assert(vistas(r@) =~= Seq::<Seq<char>>::empty());
    while i < ws.len()
        invariant
            i <= ws@.len(),
            vistas(ws@) == wv,
            wv == palavras(normalizado(texto@)),
            vistas(r@) == longas(wv.take(i as int)),
        decreases ws.len() - i,
    {
        assert(wv.take(i + 1).drop_last() =~= wv.take(i as int));
        assert(wv.take(i + 1).last() == ws@[i as int]@);
        if ws[i].len() >= 2 {
            let ghost antes = r@;
            let w = copiar_palavra(ws[i].as_slice());
            r.push(w);
            assert(vistas(r@) =~= vistas(antes).push(w@));
        }
        i = i + 1;
    }
    assert(wv.take(ws@.len() as int) =~= wv);
    r
}

fn fortes_exec(texto: &str) -> (r: Vec<Vec<char>>)
    ensures
        vistas(r@) == fortes(texto@),
{
    let ws = palavras_norm_exec(texto);
    let ghost wv = palavras_norm(texto@);
    let mut r: Vec<Vec<char>> = Vec::new();
    let mut i: usize = 0;
    assert(wv.take(0) =~= Seq::<Seq<char>>::empty());
    assert(vistas(r@) =~= Seq::<Seq<char>>::empty());
    while i < ws.len()
        invariant
            i <= ws@.len(),
            vistas(ws@) == wv,
            wv == palavras_norm(texto@),
            vistas(r@) == sem_vazias(wv.take(i as int)),
        decreases ws.len() - i,
    {
        assert(wv.take(i + 1).drop_last() =~= wv.take(i as int));
        assert(wv.take(i + 1).last() == ws@[i as int]@);
        if !vazia(ws[i].as_slice()) {
            let ghost antes = r@;
            let w = copiar_palavra(ws[i].as_slice());
            r.push(w);
            assert(vistas(r@) =~= vistas(antes).push(w@));
        }
        i = i + 1;
    }
    assert(wv.take(ws@.len() as int) =~= wv);
    r
}

fn contem_palavra(ws: &Vec<Vec<char>>, w: &[char]) -> (r: bool)
    ensures
        r == vistas(ws@).contains(w@),
{
    let mut i: usize = 0;
    while i < ws.len()
        invariant
            i <= ws@.len(),
            forall|k: int| 0 <= k < i ==> vistas(ws@)[k] != w@,
        decreases ws.len() - i,
    {
        if iguais(ws[i].as_slice(), w) {
            assert(vistas(ws@)[i as int] == w@);
            return true;
        }
        i = i + 1;
    }
    false
}

/// Quantas palavras de `gp` aparecem em `pp`.
pub open spec fn comuns(gp: Seq<Seq<char>>, pp: Seq<Seq<char>>) -> nat
    decreases gp.len(),
{
    if gp.len() == 0 {
        0
    } else {
        comuns(gp.drop_last(), pp) + (if pp.contains(gp.last()) {
            1nat
        } else {
            0nat
        })
    }
}

fn contar_comuns(gp: &Vec<Vec<char>>, pp: &Vec<Vec<char>>) -> (r: usize)
    ensures
        r == comuns(vistas(gp@), vistas(pp@)),
{
    let mut n: usize = 0;
    let mut i: usize = 0;
    assert(vistas(gp@).take(0) =~= Seq::<Seq<char>>::empty());
    while i < gp.len()
        invariant
            i <= gp@.len(),
            n <= i,
            n == comuns(vistas(gp@).take(i as int), vistas(pp@)),
        decreases gp.len() - i,
    {
        assert(vistas(gp@).take(i + 1).drop_last() =~= vistas(gp@).take(i as int));
        if contem_palavra(pp, gp[i].as_slice()) {
            n = n + 1;
        }
        i = i + 1;
    }
    assert(vistas(gp@).take(gp@.len() as int) =~= vistas(gp@));
    n
}

/// As palavras juntas por um espaço.
pub open spec fn juntar_palavras(ws: Seq<Seq<char>>) -> Seq<char>
    decreases ws.len(),
{
    if ws.len() == 0 {
        seq![]
    } else if ws.len() == 1 {
        ws[0]
    } else {
        juntar_palavras(ws.drop_last()) + seq![' '] + ws.last()
    }
}

fn juntar_palavras_exec(ws: &Vec<Vec<char>>) -> (r: Vec<char>)
    ensures
        r@ == juntar_palavras(vistas(ws@)),
{
    let mut r: Vec<char> = Vec::new();
    let mut i: usize = 0;
    assert(vistas(ws@).take(0) =~= Seq::<Seq<char>>::empty());
    while i < ws.len()
        invariant
            i <= ws@.len(),
            r@ == juntar_palavras(vistas(ws@).take(i as int)),
        decreases ws.len() - i,
    {
        assert(vistas(ws@).take(i + 1).drop_last() =~= vistas(ws@).take(i as int));
        assert(vistas(ws@).take(i + 1).last() == ws@[i as int]@);
        if i > 0 {
            r.push(' ');
        }
        crate::texto::acrescentar_vec(&mut r, ws[i].as_slice());
        i = i + 1;
        assert(r@ =~= juntar_palavras(vistas(ws@).take(i as int)));
    }
    assert(vistas(ws@).take(ws@.len() as int) =~= vistas(ws@));
    r
}

// ───────────────────────────── o casamento

/// Onde o trecho aparece no texto como palavra inteira: a posição, no texto, do
/// primeiro caractere do trecho cercado de espaços (ou das pontas).
pub open spec fn inteiro(texto: Seq<char>, trecho: Seq<char>) -> Option<int> {
    let h = seq![' '] + texto + seq![' '];
    let n = seq![' '] + trecho + seq![' '];
    if trecho.len() > 0 && contem(h, n) {
        Some(choose|i: int| crate::texto::primeira(h, n, i))
    } else {
        None
    }
}

fn inteiro_exec(texto: &[char], trecho: &[char]) -> (r: Option<usize>)
    ensures
        match inteiro(texto@, trecho@) {
            Some(i) => r matches Some(j) && j == i && 0 <= i && i + trecho@.len() <= texto@.len(),
            None => r is None,
        },
{
    if trecho.len() == 0 {
        return None;
    }
    let mut h: Vec<char> = Vec::new();
    h.push(' ');
    crate::texto::acrescentar_vec(&mut h, texto);
    h.push(' ');
    let mut n: Vec<char> = Vec::new();
    n.push(' ');
    crate::texto::acrescentar_vec(&mut n, trecho);
    n.push(' ');
    assert(h@ =~= seq![' '] + texto@ + seq![' ']);
    assert(n@ =~= seq![' '] + trecho@ + seq![' ']);
    match crate::texto::achar(h.as_slice(), n.as_slice()) {
        Some(i) => {
            proof {
                let j = choose|j: int| crate::texto::primeira(h@, n@, j);
                crate::texto::lema_primeira_unica(h@, n@, i as int, j);
            }
            Some(i)
        },
        None => None,
    }
}

/// Sem as palavras que estão em `tirar`.
pub open spec fn sem_palavras(ws: Seq<Seq<char>>, tirar: Seq<Seq<char>>) -> Seq<Seq<char>>
    decreases ws.len(),
{
    if ws.len() == 0 {
        seq![]
    } else {
        let r = sem_palavras(ws.drop_last(), tirar);
        if tirar.contains(ws.last()) {
            r
        } else {
            r.push(ws.last())
        }
    }
}

/// O que resta do pedido depois de tirar o gatilho, com um espaço entre as
/// palavras; nada, se não resta palavra.
pub open spec fn sobra_de(pedido: Seq<char>, gatilho: Seq<char>) -> Option<Seq<char>> {
    let pn = normalizado(pedido);
    let gn = normalizado(gatilho);
    let resto = match inteiro(pn, gn) {
        Some(i) => pn.take(i) + seq![' '] + pn.skip(i + gn.len()),
        None => juntar_palavras(sem_palavras(palavras(pn), palavras_norm(gatilho))),
    };
    let r = juntar_palavras(palavras(resto));
    if r.len() == 0 {
        None
    } else {
        Some(r)
    }
}

fn sobra(pedido: &str, gatilho: &str) -> (r: Option<Vec<char>>)
    ensures
        match sobra_de(pedido@, gatilho@) {
            Some(x) => r matches Some(y) && y@ == x,
            None => r is None,
        },
{
    let pn = normalizar_chars(pedido);
    let gn = normalizar_chars(gatilho);
    let npn = pn.len();
    let resto: Vec<char> = match inteiro_exec(pn.as_slice(), gn.as_slice()) {
        Some(i) => {
            assert(i + gn@.len() <= npn);
            let mut r = crate::texto::fatia(pn.as_slice(), 0, i);
            r.push(' ');
            let depois = crate::texto::fatia(pn.as_slice(), i + gn.len(), pn.len());
            crate::texto::acrescentar_vec(&mut r, depois.as_slice());
            assert(r@ =~= pn@.take(i as int) + seq![' '] + pn@.skip(i + gn@.len()));
            r
        },
        None => {
            let ws = palavras_de(pn.as_slice());
            let gp = palavras_norm_exec(gatilho);
            let mut f: Vec<Vec<char>> = Vec::new();
            let mut k: usize = 0;
            let ghost wv = palavras(pn@);
            assert(wv.take(0) =~= Seq::<Seq<char>>::empty());
            assert(vistas(f@) =~= Seq::<Seq<char>>::empty());
            while k < ws.len()
                invariant
                    k <= ws@.len(),
                    vistas(ws@) == wv,
                    vistas(f@) == sem_palavras(wv.take(k as int), vistas(gp@)),
                decreases ws.len() - k,
            {
                assert(wv.take(k + 1).drop_last() =~= wv.take(k as int));
                assert(wv.take(k + 1).last() == ws@[k as int]@);
                if !contem_palavra(&gp, ws[k].as_slice()) {
                    let ghost antes = f@;
                    let w = copiar_palavra(ws[k].as_slice());
                    f.push(w);
                    assert(vistas(f@) =~= vistas(antes).push(w@));
                }
                k = k + 1;
            }
            assert(wv.take(ws@.len() as int) =~= wv);
            juntar_palavras_exec(&f)
        },
    };
    let ws = palavras_de(resto.as_slice());
    let r = juntar_palavras_exec(&ws);
    if r.len() == 0 {
        None
    } else {
        Some(r)
    }
}

/// Quanto um gatilho casa com um pedido, como a razão exata `num / den`.
/// `0` é não casa.
#[derive(Clone, Copy, Debug, PartialEq, Eq, Structural)]
pub struct Pontos {
    pub num: u64,
    pub den: u64,
}

/// A pontuação de um gatilho contra um pedido (e o pedido já normalizado):
/// `1` se aparece literal, `19/20` se aparece depois de normalizar, a cobertura
/// das palavras fortes (ao menos duas, ao menos 66% delas, no máximo `9/10`), ou
/// `0`.
pub open spec fn pontos_de(gatilho: Seq<char>, pedido: Seq<char>, pedido_norm: Seq<char>) -> (nat, nat) {
    let g = aparado(gatilho);
    if g.len() == 0 {
        (0, 1)
    } else if inteiro(pedido_norm, normalizado(g)) is Some {
        if contem(crate::texto::minusculas(pedido), crate::texto::minusculas(g)) {
            (1, 1)
        } else {
            (19, 20)
        }
    } else {
        let gp = fortes(g);
        if gp.len() < 2 {
            (0, 1)
        } else {
            let c = comuns(gp, palavras_norm(pedido));
            let preciso = (66 * gp.len() + 99) / 100;
            if c < preciso {
                (0, 1)
            } else if 10 * c >= 9 * gp.len() {
                (9, 10)
            } else {
                (c, gp.len())
            }
        }
    }
}

proof fn lema_comuns(gp: Seq<Seq<char>>, pp: Seq<Seq<char>>)
    ensures
        comuns(gp, pp) <= gp.len(),
    decreases gp.len(),
{
    if gp.len() > 0 {
        lema_comuns(gp.drop_last(), pp);
    }
}

pub fn pontuacao(gatilho: &str, pedido: &str, pedido_norm: &str) -> (r: Pontos)
    ensures
        (r.num as nat, r.den as nat) == pontos_de(gatilho@, pedido@, pedido_norm@),
        r.den > 0,
{
    let gv = crate::texto::aparar_str(gatilho);
    if gv.len() == 0 {
        return Pontos { num: 0, den: 1 };
    }
    let g = string_de(gv.as_slice());
    let gn = normalizar_chars(g.as_str());
    let pn = caracteres(pedido_norm);
    if inteiro_exec(pn.as_slice(), gn.as_slice()).is_some() {
        let pl = crate::texto::para_minusculas(pedido);
        let gl = crate::texto::para_minusculas(g.as_str());
        let plv = caracteres_de(&pl);
        let glv = caracteres_de(&gl);
        if crate::texto::contem_exec(plv.as_slice(), glv.as_slice()) {
            Pontos { num: 1, den: 1 }
        } else {
            Pontos { num: 19, den: 20 }
        }
    } else {
        let gp = fortes_exec(g.as_str());
        if gp.len() < 2 {
            return Pontos { num: 0, den: 1 };
        }
        let pp = palavras_norm_exec(pedido);
        let c = contar_comuns(&gp, &pp);
        proof {
            lema_comuns(vistas(gp@), vistas(pp@));
        }
        let n = gp.len();
        let preciso: u128 = (66 * (n as u128) + 99) / 100;
        if (c as u128) < preciso {
            Pontos { num: 0, den: 1 }
        } else if 10 * (c as u128) >= 9 * (n as u128) {
            Pontos { num: 9, den: 10 }
        } else {
            Pontos { num: c as u64, den: n as u64 }
        }
    }
}

/// Um gatilho que casou: a pontuação, o tamanho do gatilho em caracteres, o
/// atalho e o gatilho.
pub struct CandidatoS {
    pub num: nat,
    pub den: nat,
    pub tam: nat,
    pub atalho: Seq<char>,
    pub gatilho: Seq<char>,
}

/// Pontua mais, ou empata na pontuação e tem gatilho mais longo.
pub open spec fn melhor_que(c: CandidatoS, m: CandidatoS) -> bool {
    c.num * m.den > m.num * c.den || (c.num * m.den == m.num * c.den && c.tam > m.tam)
}

/// As palavras fortes de todos os gatilhos de uma entrada.
pub open spec fn vocabulario(gs: Seq<Seq<char>>) -> Seq<Seq<char>>
    decreases gs.len(),
{
    if gs.len() == 0 {
        seq![]
    } else {
        vocabulario(gs.drop_last()) + fortes(gs.last())
    }
}

/// Atalho sem alvo não casa com frase que sobra conteúdo: a sobra só vale se
/// toda palavra forte dela for vocabulário deste atalho.
pub open spec fn sobra_cabe(e: EntradaS, pedido: Seq<char>, g: Seq<char>) -> bool {
    e.com_alvo || match sobra_de(pedido, g) {
        None => true,
        Some(r) => todas_em(fortes(r), vocabulario(e.gatilhos)),
    }
}

/// Toda palavra de `ws` está em `vocab`.
pub open spec fn todas_em(ws: Seq<Seq<char>>, vocab: Seq<Seq<char>>) -> bool {
    forall|k: int| 0 <= k < ws.len() ==> vocab.contains(#[trigger] ws[k])
}

pub open spec fn candidato(e: EntradaS, pedido: Seq<char>, g: Seq<char>) -> Option<CandidatoS> {
    let p = pontos_de(g, pedido, normalizado(pedido));
    if p.0 == 0 || !sobra_cabe(e, pedido, g) {
        None
    } else {
        Some(CandidatoS { num: p.0, den: p.1, tam: g.len(), atalho: e.atalho, gatilho: g })
    }
}

/// O melhor até aqui: o novo só toma o lugar se for estritamente melhor.
pub open spec fn passo(m: Option<CandidatoS>, c: Option<CandidatoS>) -> Option<CandidatoS> {
    match c {
        None => m,
        Some(c) => match m {
            None => Some(c),
            Some(mm) => if melhor_que(c, mm) {
                Some(c)
            } else {
                m
            },
        },
    }
}

pub open spec fn na_entrada(e: EntradaS, pedido: Seq<char>, k: int, m0: Option<CandidatoS>) -> Option<CandidatoS>
    decreases k,
{
    if k <= 0 {
        m0
    } else {
        passo(na_entrada(e, pedido, k - 1, m0), candidato(e, pedido, e.gatilhos[k - 1]))
    }
}

pub open spec fn na_tabela(tab: Seq<EntradaS>, pedido: Seq<char>, n: int) -> Option<CandidatoS>
    decreases n,
{
    if n <= 0 {
        None
    } else {
        na_entrada(
            tab[n - 1],
            pedido,
            tab[n - 1].gatilhos.len() as int,
            na_tabela(tab, pedido, n - 1),
        )
    }
}

pub open spec fn tem_alvo(tab: Seq<EntradaS>, atalho: Seq<char>) -> bool {
    exists|i: int| 0 <= i < tab.len() && (#[trigger] tab[i]).atalho == atalho && tab[i].com_alvo
}

/// O atalho do melhor gatilho, e o alvo: a sobra do pedido, se o atalho recebe
/// alvo.
pub open spec fn casado(tab: Seq<EntradaS>, pedido: Seq<char>) -> Option<(Seq<char>, Option<Seq<char>>)> {
    match na_tabela(tab, pedido, tab.len() as int) {
        None => None,
        Some(c) => Some(
            (
                c.atalho,
                if tem_alvo(tab, c.atalho) {
                    sobra_de(pedido, c.gatilho)
                } else {
                    None
                },
            ),
        ),
    }
}

/// O candidato que o laço guarda, pelo lugar na tabela.
pub open spec fn cand_de(tab: Seq<EntradaS>, m: Option<(u64, u64, usize, usize, usize)>) -> Option<CandidatoS> {
    match m {
        None => None,
        Some(x) => Some(
            CandidatoS {
                num: x.0 as nat,
                den: x.1 as nat,
                tam: x.2 as nat,
                atalho: tab[x.3 as int].atalho,
                gatilho: tab[x.3 as int].gatilhos[x.4 as int],
            },
        ),
    }
}

fn vocabulario_exec(gs: &Vec<String>) -> (r: Vec<Vec<char>>)
    ensures
        vistas(r@) == vocabulario(textos(gs@)),
{
    let mut r: Vec<Vec<char>> = Vec::new();
    let mut i: usize = 0;
    assert(textos(gs@).take(0) =~= Seq::<Seq<char>>::empty());
    assert(vistas(r@) =~= Seq::<Seq<char>>::empty());
    while i < gs.len()
        invariant
            i <= gs@.len(),
            vistas(r@) == vocabulario(textos(gs@).take(i as int)),
        decreases gs.len() - i,
    {
        assert(textos(gs@).take(i + 1).drop_last() =~= textos(gs@).take(i as int));
        assert(textos(gs@).take(i + 1).last() == gs@[i as int]@);
        let f = fortes_exec(gs[i].as_str());
        let mut k: usize = 0;
        let ghost antes = vistas(r@);
        while k < f.len()
            invariant
                k <= f@.len(),
                vistas(r@) == antes + vistas(f@).take(k as int),
            decreases f.len() - k,
        {
            let ghost a = vistas(r@);
            let w = copiar_palavra(f[k].as_slice());
            r.push(w);
            assert(vistas(r@) =~= a.push(w@));
            assert(vistas(f@).take(k + 1) =~= vistas(f@).take(k as int).push(f@[k as int]@));
            k = k + 1;
        }
        assert(vistas(f@).take(f@.len() as int) =~= vistas(f@));
        i = i + 1;
    }
    assert(textos(gs@).take(gs@.len() as int) =~= textos(gs@));
    r
}

fn sobra_cabe_exec(e: &Entrada, pedido: &str, g: &str) -> (r: bool)
    ensures
        r == sobra_cabe(e@, pedido@, g@),
{
    if e.com_alvo {
        return true;
    }
    match sobra(pedido, g) {
        None => true,
        Some(resto) => {
            let rs = string_de(resto.as_slice());
            let fs = fortes_exec(rs.as_str());
            assert(vistas(fs@) == fortes(resto@));
            assert(vocabulario(e@.gatilhos) == vocabulario(textos(e.gatilhos@)));
            assert(sobra_de(pedido@, g@) == Some(resto@));
            let vocab = vocabulario_exec(&e.gatilhos);
            let mut k: usize = 0;
            while k < fs.len()
                invariant
                    k <= fs@.len(),
                    vistas(fs@) == fortes(resto@),
                    vistas(vocab@) == vocabulario(e@.gatilhos),
                    sobra_de(pedido@, g@) == Some(resto@),
                    !e.com_alvo,
                    forall|q: int| 0 <= q < k ==> vistas(vocab@).contains(#[trigger] vistas(fs@)[q]),
                decreases fs.len() - k,
            {
                if !contem_palavra(&vocab, fs[k].as_slice()) {
                    assert(k < fortes(resto@).len());
                    assert(!vocabulario(e@.gatilhos).contains(fortes(resto@)[k as int]));
                    assert(!todas_em(fortes(resto@), vocabulario(e@.gatilhos)));
                    return false;
                }
                k = k + 1;
            }
            true
        },
    }
}

proof fn lema_produto(x: u64, y: u64)
    ensures
        (x as int) * (y as int) <= u128::MAX,
{
    assert((x as int) * (y as int) <= (u64::MAX as int) * (u64::MAX as int)) by (nonlinear_arith)
        requires
            0 <= x <= u64::MAX,
            0 <= y <= u64::MAX,
    ;
}

/// Traduz um pedido em `(atalho, alvo)` pela tabela dada.
pub fn casar_em(tab: &[Entrada], pedido: &str) -> (r: Option<(String, Option<String>)>)
    ensures
        match casado(vistas_entradas(tab@), pedido@) {
            None => r is None,
            Some(x) => r matches Some(y) && y.0@ == x.0 && match x.1 {
                None => y.1 is None,
                Some(a) => y.1 matches Some(b) && b@ == a,
            },
        },
{
    let ghost tv = vistas_entradas(tab@);
    let norm = normalizar(pedido);
    let mut melhor: Option<(u64, u64, usize, usize, usize)> = None;
    let mut i: usize = 0;
    while i < tab.len()
        invariant
            i <= tab@.len(),
            tv == vistas_entradas(tab@),
            norm@ == normalizado(pedido@),
            cand_de(tv, melhor) == na_tabela(tv, pedido@, i as int),
            melhor matches Some(x) ==> x.3 < i && x.4 < tv[x.3 as int].gatilhos.len(),
        decreases tab.len() - i,
    {
        let e = &tab[i];
        let ghost m0 = na_tabela(tv, pedido@, i as int);
        let mut j: usize = 0;
        while j < e.gatilhos.len()
            invariant
                i < tab@.len(),
                j <= e.gatilhos@.len(),
                *e == tab@[i as int],
                tv == vistas_entradas(tab@),
                norm@ == normalizado(pedido@),
                cand_de(tv, melhor) == na_entrada(tv[i as int], pedido@, j as int, m0),
                m0 == na_tabela(tv, pedido@, i as int),
                melhor matches Some(x) ==> x.3 <= i && x.4 < tv[x.3 as int].gatilhos.len(),
            decreases e.gatilhos.len() - j,
        {
            let g = &e.gatilhos[j];
            assert(tv[i as int] == e@);
            assert(tv[i as int].gatilhos[j as int] == g@);
            let p = pontuacao(g.as_str(), pedido, norm.as_str());
            if p.num != 0 && sobra_cabe_exec(e, pedido, g.as_str()) {
                let tam = caracteres_de(g).len();
                let troca = match melhor {
                    None => true,
                    Some(m) => {
                        proof {
                            lema_produto(p.num, m.1);
                            lema_produto(m.0, p.den);
                        }
                        let a = (p.num as u128) * (m.1 as u128);
                        let b = (m.0 as u128) * (p.den as u128);
                        a > b || (a == b && tam > m.2)
                    },
                };
                if troca {
                    melhor = Some((p.num, p.den, tam, i, j));
                }
            }
            j = j + 1;
        }
        i = i + 1;
    }
    match melhor {
        None => None,
        Some(m) => {
            let e = &tab[m.3];
            let g = &e.gatilhos[m.4];
            assert(tv[m.3 as int] == e@);
            assert(tv[m.3 as int].gatilhos[m.4 as int] == g@);
            assert(tv[m.3 as int].atalho == e.atalho@);
            let mut com_alvo = false;
            let mut k: usize = 0;
            while k < tab.len()
                invariant
                    k <= tab@.len(),
                    tv == vistas_entradas(tab@),
                    m.3 < tab@.len(),
                    tv[m.3 as int].atalho == e.atalho@,
                    com_alvo <==> exists|q: int|
                        0 <= q < k && (#[trigger] tv[q]).atalho == tv[m.3 as int].atalho && tv[q].com_alvo,
                decreases tab.len() - k,
            {
                let a = caracteres_de(&tab[k].atalho);
                let b = caracteres_de(&e.atalho);
                assert(tv[k as int] == tab@[k as int]@);
                assert(tv[k as int].atalho == a@);
                assert(tv[m.3 as int].atalho == b@);
                let igual = iguais(a.as_slice(), b.as_slice());
                if igual && tab[k].com_alvo {
                    com_alvo = true;
                }
                assert(com_alvo <==> exists|q: int|
                    0 <= q < k + 1 && (#[trigger] tv[q]).atalho == tv[m.3 as int].atalho && tv[q].com_alvo) by {
                    if igual && tab@[k as int].com_alvo {
                        assert(tv[k as int].atalho == tv[m.3 as int].atalho && tv[k as int].com_alvo);
                    }
                }
                k = k + 1;
            }
            let alvo = if com_alvo {
                match sobra(pedido, g.as_str()) {
                    Some(v) => Some(string_de(v.as_slice())),
                    None => None,
                }
            } else {
                None
            };
            Some((crate::texto::copiar(e.atalho.as_str()), alvo))
        },
    }
}

// ───────────────────────────── a forma do texto normalizado

/// Só letra e número ASCII ou espaço, e nunca dois espaços seguidos.
pub open spec fn bem_espacado(t: Seq<char>) -> bool {
    &&& forall|k: int| 0 <= k < t.len() ==> e_alfanumerico_ascii(#[trigger] t[k]) || t[k] == ' '
    &&& forall|k: int| 0 <= k < t.len() - 1 ==> !(#[trigger] t[k] == ' ' && t[k + 1] == ' ')
}

proof fn lema_juntar(s: Seq<char>)
    ensures
        bem_espacado(juntar(s)),
    decreases s.len(),
{
    if s.len() > 0 {
        lema_juntar(s.drop_last());
        let f = juntar(s.drop_last());
        let j = juntar(s);
        assert forall|k: int| 0 <= k < j.len() implies e_alfanumerico_ascii(#[trigger] j[k]) || j[k] == ' ' by {
            if k < f.len() {
                assert(j[k] == f[k]);
            }
        }
        assert forall|k: int| 0 <= k < j.len() - 1 implies !(#[trigger] j[k] == ' ' && j[k + 1] == ' ') by {
            if k + 1 < f.len() {
                assert(j[k] == f[k] && j[k + 1] == f[k + 1]);
            } else if k < f.len() {
                assert(j[k] == f[k]);
            }
        }
    }
}

proof fn lema_sem_branco_inicial(s: Seq<char>)
    ensures
        exists|a: int| 0 <= a <= s.len() && crate::texto::sem_branco_inicial(s) == s.subrange(a, s.len() as int),
        crate::texto::sem_branco_inicial(s).len() > 0 ==> !crate::texto::e_branco(crate::texto::sem_branco_inicial(s)[0]),
    decreases s.len(),
{
    if s.len() > 0 && crate::texto::e_branco(s[0]) {
        lema_sem_branco_inicial(s.drop_first());
        let a = choose|a: int|
            0 <= a <= s.drop_first().len() && crate::texto::sem_branco_inicial(s.drop_first()) == s.drop_first().subrange(a, s.drop_first().len() as int);
        assert(s.drop_first().subrange(a, s.drop_first().len() as int) =~= s.subrange(a + 1, s.len() as int));
    } else {
        assert(s.subrange(0, s.len() as int) =~= s);
    }
}

proof fn lema_sem_branco_final(s: Seq<char>)
    ensures
        exists|b: int| 0 <= b <= s.len() && crate::texto::sem_branco_final(s) == s.subrange(0, b),
        crate::texto::sem_branco_final(s).len() > 0 ==> !crate::texto::e_branco(crate::texto::sem_branco_final(s).last()),
    decreases s.len(),
{
    if s.len() > 0 && crate::texto::e_branco(s.last()) {
        lema_sem_branco_final(s.drop_last());
        let b = choose|b: int|
            0 <= b <= s.drop_last().len() && crate::texto::sem_branco_final(s.drop_last()) == s.drop_last().subrange(0, b);
        assert(s.drop_last().subrange(0, b) =~= s.subrange(0, b));
    } else {
        assert(s.subrange(0, s.len() as int) =~= s);
    }
}

/// O texto normalizado só tem letra e número ASCII e espaços simples, e não
/// começa nem termina em espaço.
pub proof fn lei_normalizado_e_bem_espacado(s: Seq<char>)
    ensures
        bem_espacado(normalizado(s)),
        normalizado(s).len() > 0 ==> e_alfanumerico_ascii(normalizado(s)[0])
            && e_alfanumerico_ascii(normalizado(s).last()),
{
    let j = juntar(s);
    lema_juntar(s);
    lema_sem_branco_inicial(j);
    let i = crate::texto::sem_branco_inicial(j);
    let a = choose|a: int| 0 <= a <= j.len() && i == j.subrange(a, j.len() as int);
    lema_sem_branco_final(i);
    let n = crate::texto::sem_branco_final(i);
    let b = choose|b: int| 0 <= b <= i.len() && n == i.subrange(0, b);
    assert(n =~= j.subrange(a, a + b));
    assert forall|k: int| 0 <= k < n.len() implies e_alfanumerico_ascii(#[trigger] n[k]) || n[k] == ' ' by {
        assert(n[k] == j[a + k]);
    }
    assert forall|k: int| 0 <= k < n.len() - 1 implies !(#[trigger] n[k] == ' ' && n[k + 1] == ' ') by {
        assert(n[k] == j[a + k] && n[k + 1] == j[a + k + 1]);
    }
    if n.len() > 0 {
        assert(n[0] == j[a]);
        assert(n.last() == j[a + b - 1]);
        assert(i[0] == n[0]);
    }
}

} // verus!
