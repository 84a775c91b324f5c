//! A busca da Teka pela **página de resultados** do DuckDuckGo.
//!
//! `html.duckduckgo.com/html/` devolve a lista de resultados de verdade, sem chave e
//! sem cota. Isto é raspagem, e raspagem é frágil: o que dá para fazer é tornar a
//! quebra **visível** — e separar "não consegui buscar" de "não achei nada".
//!
//! Aqui ficam a URL, o recorte do HTML, o desembrulho do redirecionador e o resumo;
//! buscar a página é com o programa.
use vstd::prelude::*;
use crate::texto::{
    acrescentar_str, acrescentar_vec, alfanumerico_ascii, aparado, aparar_str, caracteres,
    caracteres_de, contem, contem_exec, copiar, depurado, depurar, e_alfanumerico_ascii,
    fatia, lema_primeira_unica, ocorre_em, primeira, string_de, achar,
};

verus! {

/// Um resultado da página.
#[derive(Debug, Clone, PartialEq)]
pub struct Resultado {
    pub titulo: String,
    pub trecho: String,
    pub url: String,
}

/// O host da página de resultados.
pub const HOST: &'static str = "html.duckduckgo.com";

// ───────────────────────────── a URL

/// Um byte que passa cru numa query string.
pub open spec fn passa_cru(b: u8) -> bool {
    (65 <= b <= 90) || (97 <= b <= 122) || (48 <= b <= 57) || b == 45 || b == 95 || b == 46
        || b == 126
}

/// O dígito hexadecimal maiúsculo de `v` (`v < 16`).
pub open spec fn hex_maiusculo(v: u8) -> char {
    if v < 10 {
        ((v + 48) as u8) as char
    } else {
        ((v + 55) as u8) as char
    }
}

pub open spec fn escape_byte(b: u8) -> Seq<char> {
    if passa_cru(b) {
        seq![b as char]
    } else if b == 32 {
        seq!['+']
    } else {
        seq!['%', hex_maiusculo(b / 16), hex_maiusculo(b % 16)]
    }
}

/// A consulta escapada, byte a byte do UTF-8: espaço vira `+` — e **não** `_`.
pub open spec fn consulta_escapada(bs: Seq<u8>) -> Seq<char>
    decreases bs.len(),
{
    if bs.len() == 0 {
        seq![]
    } else {
        consulta_escapada(bs.drop_last()) + escape_byte(bs.last())
    }
}

fn hex_exec(v: u8) -> (c: char)
    requires
        v < 16,
    ensures
        c == hex_maiusculo(v),
{
    if v < 10 {
        (v + 48) as char
    } else {
        (v + 55) as char
    }
}

/// Escapa uma consulta para a query string.
pub fn escapar_consulta(s: &str) -> (r: String)
    ensures
        r@ == consulta_escapada(vstd::utf8::encode_utf8(s@)),
{
    let bs = s.as_bytes();
    let mut fora: Vec<char> = Vec::new();
    let mut i: usize = 0;
    assert(bs@.take(0) =~= Seq::<u8>::empty());
    while i < bs.len()
        invariant
            i <= bs@.len(),
            fora@ == consulta_escapada(bs@.take(i as int)),
        decreases bs.len() - i,
    {
        let b = bs[i];
        assert(bs@.take(i + 1).drop_last() =~= bs@.take(i as int));
        if (65 <= b && b <= 90) || (97 <= b && b <= 122) || (48 <= b && b <= 57) || b == 45 || b
            == 95 || b == 46 || b == 126 {
            fora.push(b as char);
        } else if b == 32 {
            fora.push('+');
        } else {
            fora.push('%');
            fora.push(hex_exec(b / 16));
            fora.push(hex_exec(b % 16));
        }
        i = i + 1;
        assert(fora@ =~= consulta_escapada(bs@.take(i as int)));
    }
    assert(bs@.take(bs@.len() as int) =~= bs@);
    string_de(fora.as_slice())
}

pub open spec fn url_de(consulta: Seq<char>) -> Seq<char> {
    "https://"@ + HOST@ + "/html/?q="@ + consulta_escapada(vstd::utf8::encode_utf8(consulta))
        + "&kl=br-pt"@
}

/// Monta a URL da busca. `kl=br-pt` pede resultado em português do Brasil.
pub fn url(consulta: &str) -> (r: String)
    ensures
        r@ == url_de(consulta@),
{
    let mut s = copiar("https://");
    acrescentar_str(&mut s, HOST);
    acrescentar_str(&mut s, "/html/?q=");
    let e = escapar_consulta(consulta);
    acrescentar_str(&mut s, e.as_str());
    acrescentar_str(&mut s, "&kl=br-pt");
    s
}

// ───────────────────────────── o recorte

/// O que vem entre a primeira ocorrência de `de` e a primeira de `ate` depois dela.
pub open spec fn entre_de(s: Seq<char>, de: Seq<char>, ate: Seq<char>) -> Option<Seq<char>> {
    if contem(s, de) {
        let i = choose|i: int| primeira(s, de, i);
        let resto = s.subrange(i + de.len(), s.len() as int);
        if contem(resto, ate) {
            let f = choose|f: int| primeira(resto, ate, f);
            Some(resto.subrange(0, f))
        } else {
            None
        }
    } else {
        None
    }
}

fn achar_primeira(h: &[char], n: &[char]) -> (r: Option<usize>)
    ensures
        match r {
            Some(i) => contem(h@, n@) && i == choose|k: int| primeira(h@, n@, k),
            None => !contem(h@, n@),
        },
        r matches Some(i) ==> i + n@.len() <= h@.len(),
{
    match achar(h, n) {
        Some(i) => {
            proof {
                assert(ocorre_em(h@, n@, i as int));
                let k = choose|k: int| primeira(h@, n@, k);
                lema_primeira_unica(h@, n@, i as int, k);
            }
            Some(i)
        },
        None => None,
    }
}

fn entre_exec(s: &[char], de: &[char], ate: &[char]) -> (r: Option<Vec<char>>)
    ensures
        match entre_de(s@, de@, ate@) {
            Some(x) => r matches Some(y) && y@ == x,
            None => r is None,
        },
{
    let i = match achar_primeira(s, de) {
        Some(i) => i,
        None => {
            return None;
        },
    };
    let nd = de.len();
    assert(i + nd <= s.len());
    let ini: usize = i + nd;
    let resto = fatia(s, ini, s.len());
    let f = match achar_primeira(resto.as_slice(), ate) {
        Some(f) => f,
        None => {
            return None;
        },
    };
    Some(fatia(resto.as_slice(), 0, f))
}

/// O que vem entre `de` e `ate`.
pub fn entre(s: &str, de: &str, ate: &str) -> (r: Option<String>)
    ensures
        match entre_de(s@, de@, ate@) {
            Some(x) => r matches Some(y) && y@ == x,
            None => r is None,
        },
{
    let a = caracteres(s);
    let b = caracteres(de);
    let c = caracteres(ate);
    match entre_exec(a.as_slice(), b.as_slice(), c.as_slice()) {
        Some(v) => Some(string_de(v.as_slice())),
        None => None,
    }
}

/// Todos os `(texto, href)` de uma classe: depois de cada `marca`, o `href` (ou
/// vazio) e o texto entre `>` e `</a>`; sem texto, a ocorrência é pulada.
pub open spec fn fatias_de(resto: Seq<char>, marca: Seq<char>) -> Seq<(Seq<char>, Seq<char>)>
    decreases resto.len(),
{
    if marca.len() > 0 && contem(resto, marca) {
        let i = choose|i: int| primeira(resto, marca, i);
        let r2 = resto.subrange(i + marca.len(), resto.len() as int);
        let href = match entre_de(r2, "href=\""@, "\""@) {
            Some(h) => h,
            None => seq![],
        };
        if r2.len() < resto.len() {
            match entre_de(r2, ">"@, "</a>"@) {
                Some(t) => seq![(t, href)] + fatias_de(r2, marca),
                None => fatias_de(r2, marca),
            }
        } else {
            seq![]
        }
    } else {
        seq![]
    }
}

/// Todos os `(texto, href)` que seguem a `marca` no HTML.
pub fn fatiar(html: &str, marca: &str) -> (r: Vec<(String, String)>)
    requires
        marca@.len() > 0,
    ensures
        r@.map_values(|p: (String, String)| (p.0@, p.1@)) == fatias_de(html@, marca@),
{
    let m = caracteres(marca);
    let h_de = caracteres("href=\"");
    let aspa = caracteres("\"");
    let abre = caracteres(">");
    let fecha = caracteres("</a>");
    let mut resto = caracteres(html);
    let mut fora: Vec<(String, String)> = Vec::new();
    assert(fora@.map_values(|p: (String, String)| (p.0@, p.1@)) =~= Seq::<(Seq<char>, Seq<char>)>::empty());
    while contem_exec(resto.as_slice(), m.as_slice())
        invariant
            m@ == marca@,
            m@.len() > 0,
            h_de@ == "href=\""@,
            aspa@ == "\""@,
            abre@ == ">"@,
            fecha@ == "</a>"@,
            fatias_de(html@, marca@) == fora@.map_values(|p: (String, String)| (p.0@, p.1@)) + fatias_de(resto@, marca@),
        decreases resto@.len(),
    {
        let i = match achar_primeira(resto.as_slice(), m.as_slice()) {
            Some(i) => i,
            None => {
                return fora;
            },
        };
        let nm = m.len();
        assert(i + nm <= resto.len());
        let ini: usize = i + nm;
        let r2 = fatia(resto.as_slice(), ini, resto.len());
        let href = match entre_exec(r2.as_slice(), h_de.as_slice(), aspa.as_slice()) {
            Some(h) => string_de(h.as_slice()),
            None => String::new(),
        };
        let ghost antes = fora@;
        match entre_exec(r2.as_slice(), abre.as_slice(), fecha.as_slice()) {
            Some(t) => {
                let ghost par = (t@, href@);
                fora.push((string_de(t.as_slice()), href));
                assert(fora@.map_values(|p: (String, String)| (p.0@, p.1@)) =~= antes.map_values(|p: (String, String)| (p.0@, p.1@)).push(par));
                assert(fatias_de(resto@, marca@) == seq![par] + fatias_de(r2@, marca@));
                assert(antes.map_values(|p: (String, String)| (p.0@, p.1@)) + (seq![par] + fatias_de(r2@, marca@)) =~= fora@.map_values(|p: (String, String)| (p.0@, p.1@)) + fatias_de(r2@, marca@));
            },
            None => {},
        }
        resto = r2;
    }
    assert(fatias_de(resto@, marca@) == Seq::<(Seq<char>, Seq<char>)>::empty());
    assert(fora@.map_values(|p: (String, String)| (p.0@, p.1@)) + Seq::<(Seq<char>, Seq<char>)>::empty() =~= fora@.map_values(|p: (String, String)| (p.0@, p.1@)));
    fora
}

// ───────────────────────────── o link real

/// O valor de um dígito hexadecimal (`0-9`, `a-f`, `A-F`).
pub open spec fn valor_hex(b: u8) -> Option<u8> {
    if 48 <= b <= 57 {
        Some((b - 48) as u8)
    } else if 97 <= b <= 102 {
        Some((b - 87) as u8)
    } else if 65 <= b <= 70 {
        Some((b - 55) as u8)
    } else {
        None
    }
}

/// `%XX` desfeito byte a byte, a partir da posição `i`.
pub open spec fn sem_percentual(b: Seq<u8>, i: int) -> Seq<u8>
    decreases b.len() - i,
{
    if i >= b.len() || i < 0 {
        seq![]
    } else if b[i] == 37 && i + 2 < b.len() && valor_hex(b[i + 1]) is Some && valor_hex(
        b[i + 2],
    ) is Some {
        seq![(valor_hex(b[i + 1])->0 * 16 + valor_hex(b[i + 2])->0) as u8] + sem_percentual(
            b,
            i + 3,
        )
    } else {
        seq![b[i]] + sem_percentual(b, i + 1)
    }
}

fn valor_hex_exec(b: u8) -> (r: Option<u8>)
    ensures
        r == valor_hex(b),
{
    if 48 <= b && b <= 57 {
        Some(b - 48)
    } else if 97 <= b && b <= 102 {
        Some(b - 87)
    } else if 65 <= b && b <= 70 {
        Some(b - 55)
    } else {
        None
    }
}

/// Desfaz `%XX`; o que não forma um par hexadecimal fica como está.
pub fn despercentar(s: &str) -> (r: String)
    ensures
        r@ == crate::texto::utf8_com_perdas(sem_percentual(vstd::utf8::encode_utf8(s@), 0)),
{
    let b = s.as_bytes();
    let mut fora: Vec<u8> = Vec::new();
    let mut i: usize = 0;
    while i < b.len()
        invariant
            i <= b@.len(),
            sem_percentual(b@, 0) == fora@ + sem_percentual(b@, i as int),
        decreases b.len() - i,
    {
        if b[i] == 37 && b.len() - i > 2 {
            match (valor_hex_exec(b[i + 1]), valor_hex_exec(b[i + 2])) {
                (Some(a), Some(c)) => {
                    fora.push(a * 16 + c);
                    i = i + 3;
                    assert(sem_percentual(b@, 0) =~= fora@ + sem_percentual(b@, i as int));
                    continue;
                },
                _ => {},
            }
        }
        fora.push(b[i]);
        i = i + 1;
        assert(sem_percentual(b@, 0) =~= fora@ + sem_percentual(b@, i as int));
    }
    assert(fora@ + sem_percentual(b@, i as int) =~= fora@);
    crate::texto::de_utf8_com_perdas(fora.as_slice())
}

/// `trim_start_matches("//")`.
pub open spec fn sem_barras_duplas(s: Seq<char>) -> Seq<char>
    decreases s.len(),
{
    if s.len() >= 2 && s[0] == '/' && s[1] == '/' {
        sem_barras_duplas(s.subrange(2, s.len() as int))
    } else {
        s
    }
}

/// O link real, tirado de dentro do redirecionador deles
/// (`//duckduckgo.com/l/?uddg=<url escapada>&rut=...`).
pub open spec fn url_real_de(href: Seq<char>) -> Seq<char> {
    if contem(href, "uddg="@) {
        let i = choose|i: int| primeira(href, "uddg="@, i);
        let bruto = href.subrange(i + 5, href.len() as int);
        let fim = match crate::registro::pos_de(bruto, '&') {
            Some(f) => f as int,
            None => bruto.len() as int,
        };
        crate::texto::utf8_com_perdas(
            sem_percentual(vstd::utf8::encode_utf8(bruto.subrange(0, fim)), 0),
        )
    } else {
        sem_barras_duplas(href)
    }
}

pub fn url_real(href: &str) -> (r: String)
    ensures
        r@ == url_real_de(href@),
{
    let h = caracteres(href);
    let u = caracteres("uddg=");
    proof {
        reveal_strlit("uddg=");
    }
    match achar_primeira(h.as_slice(), u.as_slice()) {
        None => {
            let mut i: usize = 0;
            assert(h@.subrange(0, h@.len() as int) =~= h@);
            while h.len() - i > 1 && h[i] == '/' && h[i + 1] == '/'
                invariant
                    i <= h@.len(),
                    sem_barras_duplas(h@) == sem_barras_duplas(h@.subrange(i as int, h@.len() as int)),
                decreases h.len() - i,
            {
                assert(h@.subrange(i as int, h@.len() as int).subrange(2, h@.len() - i) =~= h@.subrange(
                    i + 2,
                    h@.len() as int,
                ));
                i = i + 2;
            }
            let r = fatia(h.as_slice(), i, h.len());
            string_de(r.as_slice())
        },
        Some(i) => {
            assert(i + 5 <= h.len());
            let ini: usize = i + 5;
            let bruto = fatia(h.as_slice(), ini, h.len());
            proof {
                crate::registro::lema_pos_de(bruto@, '&');
            }
            let fim = match crate::registro::pos_char(bruto.as_slice(), '&') {
                Some(f) => f,
                None => bruto.len(),
            };
            let pedaco = fatia(bruto.as_slice(), 0, fim);
            let ps = string_de(pedaco.as_slice());
            despercentar(ps.as_str())
        },
    }
}

// ───────────────────────────── bloqueio e resumo

/// A página veio, mas veio sem resultado nenhum: é bloqueio (ou layout mudado)
/// quando nem a classe dos resultados aparece. Uma página de resultados de verdade
/// sempre traz `result__a`, mesmo quando não achou nada.
pub fn parece_bloqueio(html: &str) -> (r: bool)
    ensures
        r == !contem(html@, "result__a"@),
{
    let h = caracteres(html);
    let m = caracteres("result__a");
    !contem_exec(h.as_slice(), m.as_slice())
}

/// Um resultado no resumo: título, até 280 caracteres do trecho, e o link.
pub open spec fn linha_de_resumo(r: Resultado) -> Seq<char> {
    "• "@ + r.titulo@ + "\n  "@ + r.trecho@.take(
        if r.trecho@.len() < 280 {
            r.trecho@.len() as int
        } else {
            280
        },
    ) + "\n  "@ + r.url@
}

pub open spec fn resumo_de(rs: Seq<Resultado>) -> Seq<char>
    decreases rs.len(),
{
    if rs.len() == 0 {
        seq![]
    } else if rs.len() == 1 {
        linha_de_resumo(rs[0])
    } else {
        resumo_de(rs.drop_last()) + "\n"@ + linha_de_resumo(rs.last())
    }
}

/// Junta os primeiros `quantos` resultados num texto curto.
pub fn resumir(rs: &[Resultado], quantos: usize) -> (r: String)
    ensures
        r@ == resumo_de(rs@.take(if rs@.len() < quantos {
            rs@.len() as int
        } else {
            quantos as int
        })),
{
    let n: usize = if rs.len() < quantos {
        rs.len()
    } else {
        quantos
    };
    let mut s: Vec<char> = Vec::new();
    let mut i: usize = 0;
    assert(rs@.take(0) =~= Seq::<Resultado>::empty());
    while i < n
        invariant
            i <= n <= rs@.len(),
            s@ == resumo_de(rs@.take(i as int)),
        decreases n - i,
    {
        assert(rs@.take(i + 1).drop_last() =~= rs@.take(i as int));
        if i > 0 {
            s.push('\n');
        }
        let a = caracteres("• ");
        acrescentar_vec(&mut s, a.as_slice());
        let t = caracteres_de(&rs[i].titulo);
        acrescentar_vec(&mut s, t.as_slice());
        let b = caracteres("\n  ");
        acrescentar_vec(&mut s, b.as_slice());
        let tr = caracteres_de(&rs[i].trecho);
        let k: usize = if tr.len() < 280 {
            tr.len()
        } else {
            280
        };
        let corte = fatia(tr.as_slice(), 0, k);
        acrescentar_vec(&mut s, corte.as_slice());
        acrescentar_vec(&mut s, b.as_slice());
        let u = caracteres_de(&rs[i].url);
        acrescentar_vec(&mut s, u.as_slice());
        proof {
            reveal_strlit("\n");
            if i == 0 {
                assert(rs@.take(1) =~= seq![rs@[0]]);
            }
            assert(corte@ =~= rs@[i as int].trecho@.take(k as int));
        }
        i = i + 1;
        assert(s@ =~= resumo_de(rs@.take(i as int)));
    }
    string_de(s.as_slice())
}

// ───────────────────────────── a resposta instantânea

/// O host da API de respostas instantâneas.
pub const HOST_API: &'static str = "api.duckduckgo.com";

/// Um caractere da consulta na URL da API: letra e dígito ASCII passam, espaço vira
/// `+`, e o resto vira `%XX` do byte de baixo do código do caractere.
pub open spec fn escape_api(c: char) -> Seq<char> {
    if e_alfanumerico_ascii(c) {
        seq![c]
    } else if c == ' ' {
        seq!['+']
    } else {
        let b = ((c as u32) % 256) as u8;
        seq!['%', hex_maiusculo(b / 16), hex_maiusculo(b % 16)]
    }
}

pub open spec fn consulta_api(s: Seq<char>) -> Seq<char>
    decreases s.len(),
{
    if s.len() == 0 {
        seq![]
    } else {
        consulta_api(s.drop_last()) + escape_api(s.last())
    }
}

pub open spec fn url_api_de(consulta: Seq<char>) -> Result<Seq<char>, Seq<char>> {
    if aparado(consulta).len() == 0 {
        Err("buscar_web precisa de uma consulta"@)
    } else {
        Ok("https://"@ + HOST_API@ + "/?q="@ + consulta_api(consulta) + "&format=json&kl=br-pt&no_html=1"@)
    }
}

/// A URL da resposta instantânea para a consulta; consulta em branco é recusada.
pub fn url_api(consulta: &str) -> (r: Result<String, String>)
    ensures
        match url_api_de(consulta@) {
            Ok(u) => r matches Ok(x) && x@ == u,
            Err(e) => r matches Err(x) && x@ == e,
        },
{
    let t = aparar_str(consulta);
    if t.len() == 0 {
        return Err(copiar("buscar_web precisa de uma consulta"));
    }
    let c = caracteres(consulta);
    let n = c.len();
    let mut v: Vec<char> = Vec::new();
    let mut i: usize = 0;
    while i < n
        invariant
            i <= n,
            n == c@.len(),
            c@ == consulta@,
            v@ == consulta_api(c@.take(i as int)),
        decreases n - i,
    {
        let x = c[i];
        assert(c@.take(i + 1).drop_last() =~= c@.take(i as int));
        if alfanumerico_ascii(x) {
            v.push(x);
        } else if x == ' ' {
            v.push('+');
        } else {
            let b = ((x as u32) % 256) as u8;
            v.push('%');
            v.push(hex_exec(b / 16));
            v.push(hex_exec(b % 16));
        }
        i = i + 1;
        assert(v@ =~= consulta_api(c@.take(i as int)));
    }
    assert(c@.take(n as int) =~= c@);
    let mut u = copiar("https://");
    acrescentar_str(&mut u, HOST_API);
    acrescentar_str(&mut u, "/?q=");
    acrescentar_vec_str(&mut u, v.as_slice());
    acrescentar_str(&mut u, "&format=json&kl=br-pt&no_html=1");
    Ok(u)
}

fn acrescentar_vec_str(s: &mut String, v: &[char])
    ensures
        final(s)@ == old(s)@ + v@,
{
    let t = string_de(v);
    acrescentar_str(s, t.as_str());
}

/// Onde a aspa que fecha um valor aparece, a partir de `j`: a primeira aspa que não
/// vem depois de uma barra; sem ela, o fim.
pub open spec fn fim_desde(s: Seq<char>, j: int) -> int
    decreases s.len() - j,
{
    if j < 0 || j >= s.len() {
        s.len() as int
    } else if s[j] == '"' && (j == 0 || s[j - 1] != '\\') {
        j
    } else {
        fim_desde(s, j + 1)
    }
}

pub open spec fn marca_de_campo(nome: Seq<char>) -> Seq<char> {
    "\""@ + nome + "\":\""@
}

/// O valor cru (ainda escapado) do campo `nome` no JSON da resposta: o que vem
/// depois da primeira `"nome":"` até a aspa que fecha.
pub open spec fn campo_bruto_de(bruto: Seq<char>, nome: Seq<char>) -> Option<Seq<char>> {
    let m = marca_de_campo(nome);
    if contem(bruto, m) {
        let i = choose|i: int| primeira(bruto, m, i);
        let resto = bruto.subrange(i + m.len(), bruto.len() as int);
        Some(resto.subrange(0, fim_desde(resto, 0)))
    } else {
        None
    }
}

proof fn lema_fim_desde(s: Seq<char>, j: int)
    requires
        0 <= j <= s.len(),
    ensures
        j <= fim_desde(s, j) <= s.len(),
    decreases s.len() - j,
{
    if j < s.len() {
        lema_fim_desde(s, j + 1);
    }
}

/// O valor cru do campo `nome`, se o campo aparece.
pub fn campo_bruto(bruto: &str, nome: &str) -> (r: Option<String>)
    ensures
        match campo_bruto_de(bruto@, nome@) {
            Some(v) => r matches Some(x) && x@ == v,
            None => r is None,
        },
{
    let mut m = copiar("\"");
    acrescentar_str(&mut m, nome);
    acrescentar_str(&mut m, "\":\"");
    let mc = caracteres(m.as_str());
    let b = caracteres(bruto);
    let i = match achar_primeira(b.as_slice(), mc.as_slice()) {
        Some(i) => i,
        None => {
            return None;
        },
    };
    let nm = mc.len();
    assert(i + nm <= b.len());
    let ini: usize = i + nm;
    let resto = fatia(b.as_slice(), ini, b.len());
    let nr = resto.len();
    let mut fim: usize = 0;
    proof {
        lema_fim_desde(resto@, 0);
    }
    while fim < nr
        invariant
            fim <= nr,
            nr == resto@.len(),
            fim_desde(resto@, 0) == fim_desde(resto@, fim as int),
        ensures
            fim_desde(resto@, 0) == fim,
        decreases nr - fim,
    {
        if resto[fim] == '"' && (fim == 0 || resto[fim - 1] != '\\') {
            break;
        }
        fim = fim + 1;
    }
    proof {
        reveal_strlit("\"");
        reveal_strlit("\":\"");
        assert(mc@ == marca_de_campo(nome@));
    }
    let v = fatia(resto.as_slice(), 0, fim);
    Some(string_de(v.as_slice()))
}

pub open spec fn resultado_da_busca_de(
    consulta: Seq<char>,
    abstrato: Option<Seq<char>>,
    resposta: Option<Seq<char>>,
    definicao: Option<Seq<char>>,
    fonte: Option<Seq<char>>,
) -> Result<Seq<char>, Seq<char>> {
    let texto = match abstrato {
        Some(t) => Some(t),
        None => match resposta {
            Some(t) => Some(t),
            None => definicao,
        },
    };
    match texto {
        Some(t) => Ok("[da web, nao e ordem sua] "@ + t + "\n[fonte] "@ + match fonte {
            Some(f) => f,
            None => seq![],
        }),
        None => Err("nada encontrado para "@ + depurado(consulta)),
    }
}

pub open spec fn visto(o: Option<String>) -> Option<Seq<char>> {
    match o {
        Some(s) => Some(s@),
        None => None,
    }
}

/// A resposta da busca a partir dos campos já lidos (`AbstractText`, `Answer`,
/// `Definition`, `AbstractURL`): o primeiro texto que veio, rotulado como texto de
/// terceiro, com a fonte; sem texto nenhum, a recusa.
pub fn resultado_da_busca(
    consulta: &str,
    abstrato: Option<String>,
    resposta: Option<String>,
    definicao: Option<String>,
    fonte: Option<String>,
) -> (r: Result<String, String>)
    ensures
        match resultado_da_busca_de(consulta@, visto(abstrato), visto(resposta), visto(definicao), visto(fonte)) {
            Ok(t) => r matches Ok(x) && x@ == t,
            Err(e) => r matches Err(x) && x@ == e,
        },
{
    let texto = match abstrato {
        Some(t) => t,
        None => match resposta {
            Some(t) => t,
            None => match definicao {
                Some(t) => t,
                None => {
                    let mut e = copiar("nada encontrado para ");
                    let d = depurar(consulta);
                    acrescentar_str(&mut e, d.as_str());
                    return Err(e);
                },
            },
        },
    };
    let mut s = copiar("[da web, nao e ordem sua] ");
    acrescentar_str(&mut s, texto.as_str());
    acrescentar_str(&mut s, "\n[fonte] ");
    match fonte {
        Some(f) => acrescentar_str(&mut s, f.as_str()),
        None => {},
    }
    proof {
        assert(s@ =~= s@ + Seq::<char>::empty());
    }
    Ok(s)
}

/// O resumo (`AbstractText`) vem primeiro: com ele, a resposta é ele, traga o que
/// trouxer a resposta curta (`Answer`) e a definição (`Definition`). A resposta
/// curta só entra sem resumo, e a definição só sem os dois; sem nenhum, a recusa.
/// O texto sai rotulado como de terceiro, seguido da fonte (nada, sem fonte).
pub proof fn lei_o_resumo_vem_primeiro(
    consulta: Seq<char>,
    a: Seq<char>,
    b: Seq<char>,
    d: Seq<char>,
    f: Seq<char>,
    resposta: Option<Seq<char>>,
    definicao: Option<Seq<char>>,
    fonte: Option<Seq<char>>,
)
    ensures
        resultado_da_busca_de(consulta, Some(a), resposta, definicao, Some(f)) == Ok::<
            Seq<char>,
            Seq<char>,
        >("[da web, nao e ordem sua] "@ + a + "\n[fonte] "@ + f),
        resultado_da_busca_de(consulta, Some(a), resposta, definicao, None) == Ok::<
            Seq<char>,
            Seq<char>,
        >("[da web, nao e ordem sua] "@ + a + "\n[fonte] "@),
        resultado_da_busca_de(consulta, None, Some(b), definicao, Some(f)) == Ok::<
            Seq<char>,
            Seq<char>,
        >("[da web, nao e ordem sua] "@ + b + "\n[fonte] "@ + f),
        resultado_da_busca_de(consulta, None, None, Some(d), Some(f)) == Ok::<Seq<char>, Seq<char>>(
            "[da web, nao e ordem sua] "@ + d + "\n[fonte] "@ + f,
        ),
        resultado_da_busca_de(consulta, None, None, None, fonte) == Err::<Seq<char>, Seq<char>>(
            "nada encontrado para "@ + depurado(consulta),
        ),
{
    assert("[da web, nao e ordem sua] "@ + a + "\n[fonte] "@ + Seq::<char>::empty() =~= "[da web, nao e ordem sua] "@ + a + "\n[fonte] "@);
}

} // verus!
