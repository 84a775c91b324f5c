//! Ponte WebSocket para a extensão do Spotify — o caminho que **não rouba o foco**.
//!
//! A extensão vive **dentro** do cliente do Spotify e fala WebSocket com quem
//! quiser controlá-la. A ponte fala com o cliente por socket: não existe janela
//! envolvida, então não há foco para roubar.
//!
//! ## O handshake, e por que SHA-1 e base64 estão aqui
//!
//! O protocolo exige devolver `base64(sha1(chave + GUID))`. Errar o handshake não dá
//! erro visível: o navegador só fecha a conexão sem dizer por quê.
//!
//! Aqui ficam as contas e os formatos — SHA-1, base64, o aceite, os quadros e as
//! mensagens. Escutar a porta, aceitar conexões e esperar respostas é com o
//! programa.
use vstd::prelude::*;
use vstd::wrapping::u32_specs::wrapping_add;
use crate::texto::{acrescentar_str, caracteres, copiar, decimal, escrever_decimal, string_de};

verus! {

/// Porta da extensão da Teka. A da Nyxara fica na 8766 e não é tocada.
pub const PORTA: u16 = 8767;

/// O GUID que o protocolo manda concatenar. Não é segredo, é constante da RFC 6455.
pub const GUID: &'static str = "258EAFA5-E914-47DA-95CA-C5AB0DC85B11";

// ───────────────────────────── SHA-1 (FIPS 180-1)

pub open spec fn rotl(x: u32, n: u32) -> u32 {
    (x << n) | (x >> ((32 - n) as u32))
}

pub open spec fn be32(x: u32) -> Seq<u8> {
    seq![(x >> 24u32) as u8, (x >> 16u32) as u8, (x >> 8u32) as u8, x as u8]
}

pub open spec fn be64(x: u64) -> Seq<u8> {
    seq![
        (x >> 56u64) as u8,
        (x >> 48u64) as u8,
        (x >> 40u64) as u8,
        (x >> 32u64) as u8,
        (x >> 24u64) as u8,
        (x >> 16u64) as u8,
        (x >> 8u64) as u8,
        x as u8,
    ]
}

/// Quantos zeros vêm depois do `0x80` para o comprimento cair em 56 módulo 64.
pub open spec fn zeros_de(n: nat) -> nat {
    let r = (n + 1) % 64;
    if r <= 56 {
        (56 - r) as nat
    } else {
        (120 - r) as nat
    }
}

/// A mensagem preenchida: os dados, `0x80`, zeros, e o tamanho em bits (64 bits,
/// big-endian).
pub open spec fn preenchido(d: Seq<u8>) -> Seq<u8> {
    d.push(0x80u8) + Seq::new(zeros_de(d.len()), |i: int| 0u8) + be64((d.len() * 8) as u64)
}

/// A palavra `i` de um bloco, big-endian.
pub open spec fn palavra(b: Seq<u8>, i: int) -> u32 {
    ((b[4 * i] as u32) << 24u32) | ((b[4 * i + 1] as u32) << 16u32) | ((b[4 * i + 2] as u32)
        << 8u32) | (b[4 * i + 3] as u32)
}

/// A agenda de palavras de um bloco.
pub open spec fn agenda(b: Seq<u8>, i: nat) -> u32
    decreases i,
{
    if i < 16 {
        palavra(b, i as int)
    } else {
        rotl(
            agenda(b, (i - 3) as nat) ^ agenda(b, (i - 8) as nat) ^ agenda(b, (i - 14) as nat)
                ^ agenda(b, (i - 16) as nat),
            1,
        )
    }
}

pub type Estado5 = (u32, u32, u32, u32, u32);

/// A função e a constante da rodada `i`.
pub open spec fn f_k(i: nat, b: u32, c: u32, d: u32) -> (u32, u32) {
    if i < 20 {
        ((b & c) | (!b & d), 0x5A827999u32)
    } else if i < 40 {
        (b ^ c ^ d, 0x6ED9EBA1u32)
    } else if i < 60 {
        ((b & c) | (b & d) | (c & d), 0x8F1BBCDCu32)
    } else {
        (b ^ c ^ d, 0xCA62C1D6u32)
    }
}

pub open spec fn rodada(p: Estado5, b: Seq<u8>, i: nat) -> Estado5 {
    let fk = f_k(i, p.1, p.2, p.3);
    let t = wrapping_add(
        wrapping_add(wrapping_add(wrapping_add(rotl(p.0, 5), fk.0), p.4), fk.1),
        agenda(b, i),
    );
    (t, p.0, rotl(p.1, 30), p.2, p.3)
}

/// As `n` primeiras rodadas sobre um bloco.
pub open spec fn rodadas(s: Estado5, b: Seq<u8>, n: nat) -> Estado5
    decreases n,
{
    if n == 0 {
        s
    } else {
        rodada(rodadas(s, b, (n - 1) as nat), b, (n - 1) as nat)
    }
}

pub open spec fn comprime(h: Estado5, b: Seq<u8>) -> Estado5 {
    let r = rodadas(h, b, 80);
    (
        wrapping_add(h.0, r.0),
        wrapping_add(h.1, r.1),
        wrapping_add(h.2, r.2),
        wrapping_add(h.3, r.3),
        wrapping_add(h.4, r.4),
    )
}

pub open spec fn h0() -> Estado5 {
    (0x67452301u32, 0xEFCDAB89u32, 0x98BADCFEu32, 0x10325476u32, 0xC3D2E1F0u32)
}

/// O estado depois dos `n` primeiros blocos de `m`.
pub open spec fn blocos(m: Seq<u8>, n: nat) -> Estado5
    decreases n,
{
    if n == 0 {
        h0()
    } else {
        comprime(blocos(m, (n - 1) as nat), m.subrange(64 * (n - 1), 64 * n as int))
    }
}

/// O SHA-1 de `d`: os cinco registros finais, big-endian.
pub open spec fn sha1_de(d: Seq<u8>) -> Seq<u8> {
    let m = preenchido(d);
    let h = blocos(m, m.len() / 64);
    be32(h.0) + be32(h.1) + be32(h.2) + be32(h.3) + be32(h.4)
}

fn rotl1(x: u32) -> (r: u32)
    ensures
        r == rotl(x, 1),
{
    (x << 1u32) | (x >> 31u32)
}

fn rotl5(x: u32) -> (r: u32)
    ensures
        r == rotl(x, 5),
{
    (x << 5u32) | (x >> 27u32)
}

fn rotl30(x: u32) -> (r: u32)
    ensures
        r == rotl(x, 30),
{
    (x << 30u32) | (x >> 2u32)
}

proof fn lema_zeros(n: nat)
    ensures
        (n + 1 + zeros_de(n) + 8) % 64 == 0,
{
    let r = (n + 1) % 64;
    assert((n + 1) == 64 * ((n + 1) / 64) + r) by (nonlinear_arith)
        requires
            r == (n + 1) % 64,
    ;
    if r <= 56 {
        assert(n + 1 + zeros_de(n) + 8 == 64 * ((n + 1) / 64) + 64);
        assert((64 * ((n + 1) / 64) + 64) % 64 == 0) by (nonlinear_arith);
    } else {
        assert(n + 1 + zeros_de(n) + 8 == 64 * ((n + 1) / 64) + 128);
        assert((64 * ((n + 1) / 64) + 128) % 64 == 0) by (nonlinear_arith);
    }
}

fn be64_exec(x: u64) -> (r: Vec<u8>)
    ensures
        r@ == be64(x),
{
    let mut v: Vec<u8> = Vec::new();
    v.push((x >> 56u64) as u8);
    v.push((x >> 48u64) as u8);
    v.push((x >> 40u64) as u8);
    v.push((x >> 32u64) as u8);
    v.push((x >> 24u64) as u8);
    v.push((x >> 16u64) as u8);
    v.push((x >> 8u64) as u8);
    v.push(x as u8);
    assert(v@ =~= be64(x));
    v
}

fn preencher(dados: &[u8]) -> (m: Vec<u8>)
    requires
        dados@.len() * 8 <= u64::MAX,
        dados@.len() + 128 <= usize::MAX,
    ensures
        m@ == preenchido(dados@),
        m@.len() % 64 == 0,
{
    let mut m: Vec<u8> = Vec::new();
    let mut i: usize = 0;
    while i < dados.len()
        invariant
            i <= dados@.len(),
            m@ == dados@.take(i as int),
        decreases dados.len() - i,
    {
        m.push(dados[i]);
        i = i + 1;
        assert(m@ =~= dados@.take(i as int));
    }
    assert(dados@.take(dados@.len() as int) =~= dados@);
    m.push(0x80);
    let r: usize = (dados.len() + 1) % 64;
    let k: usize = if r <= 56 {
        56 - r
    } else {
        120 - r
    };
    let ghost base = m@;
    let mut j: usize = 0;
    while j < k
        invariant
            j <= k,
            k == zeros_de(dados@.len()),
            m@ == base + Seq::new(j as nat, |x: int| 0u8),
        decreases k - j,
    {
        m.push(0);
        j = j + 1;
        assert(m@ =~= base + Seq::new(j as nat, |x: int| 0u8));
    }
    let bits: u64 = (dados.len() as u64) * 8;
    let t = be64_exec(bits);
    let ghost antes = m@;
    crate::texto::acrescentar_bytes(&mut m, t.as_slice());
    proof {
        lema_zeros(dados@.len());
        assert(m@ == antes + be64(bits));
    }
    m
}

fn agenda_do_bloco(m: &Vec<u8>, ini: usize) -> (w: Vec<u32>)
    requires
        ini + 64 <= m.len(),
    ensures
        w@.len() == 80,
        forall|j: int| 0 <= j < 80 ==> w@[j] == agenda(m@.subrange(ini as int, ini + 64), j as nat),
{
    let ghost b = m@.subrange(ini as int, ini + 64);
    let mut w: Vec<u32> = Vec::new();
    let mut i: usize = 0;
    while i < 16
        invariant
            i <= 16,
            ini + 64 <= m.len(),
            b == m@.subrange(ini as int, ini + 64),
            w@.len() == i,
            forall|j: int| 0 <= j < i ==> w@[j] == agenda(b, j as nat),
        decreases 16 - i,
    {
        let p = ini + 4 * i;
        let x = ((m[p] as u32) << 24u32) | ((m[p + 1] as u32) << 16u32) | ((m[p + 2] as u32)
            << 8u32) | (m[p + 3] as u32);
        assert(b[4 * i as int] == m@[p as int]);
        assert(b[4 * i + 1] == m@[p + 1]);
        assert(b[4 * i + 2] == m@[p + 2]);
        assert(b[4 * i + 3] == m@[p + 3]);
        assert(x == agenda(b, i as nat));
        w.push(x);
        i = i + 1;
    }
    while i < 80
        invariant
            16 <= i <= 80,
            w@.len() == i,
            forall|j: int| 0 <= j < i ==> w@[j] == agenda(b, j as nat),
        decreases 80 - i,
    {
        let x = rotl1(w[i - 3] ^ w[i - 8] ^ w[i - 14] ^ w[i - 16]);
        assert(x == agenda(b, i as nat));
        w.push(x);
        i = i + 1;
    }
    w
}

fn comprimir(h: (u32, u32, u32, u32, u32), m: &Vec<u8>, ini: usize) -> (r: (
    u32,
    u32,
    u32,
    u32,
    u32,
))
    requires
        ini + 64 <= m.len(),
    ensures
        r == comprime(h, m@.subrange(ini as int, ini + 64)),
{
    let ghost b = m@.subrange(ini as int, ini + 64);
    let w = agenda_do_bloco(m, ini);
    let (mut a, mut bb, mut c, mut d, mut e) = h;
    let mut i: usize = 0;
    while i < 80
        invariant
            i <= 80,
            w@.len() == 80,
            forall|j: int| 0 <= j < 80 ==> w@[j] == agenda(b, j as nat),
            (a, bb, c, d, e) == rodadas(h, b, i as nat),
        decreases 80 - i,
    {
        let (f, k) = if i < 20 {
            ((bb & c) | (!bb & d), 0x5A827999u32)
        } else if i < 40 {
            (bb ^ c ^ d, 0x6ED9EBA1u32)
        } else if i < 60 {
            ((bb & c) | (bb & d) | (c & d), 0x8F1BBCDCu32)
        } else {
            (bb ^ c ^ d, 0xCA62C1D6u32)
        };
        let t = rotl5(a).wrapping_add(f).wrapping_add(e).wrapping_add(k).wrapping_add(w[i]);
        e = d;
        d = c;
        c = rotl30(bb);
        bb = a;
        a = t;
        i = i + 1;
    }
    (
        h.0.wrapping_add(a),
        h.1.wrapping_add(bb),
        h.2.wrapping_add(c),
        h.3.wrapping_add(d),
        h.4.wrapping_add(e),
    )
}

/// SHA-1 de um pedaço de bytes.
///
/// Aqui **não é criptografia**: é o que a RFC 6455 manda calcular para provar ao
/// navegador que o servidor entendeu o protocolo.
pub fn sha1(dados: &[u8]) -> (r: [u8; 20])
    requires
        dados@.len() * 8 <= u64::MAX,
        dados@.len() + 128 <= usize::MAX,
    ensures
        r@ == sha1_de(dados@),
{
    let m = preencher(dados);
    let mut h: (u32, u32, u32, u32, u32) = (
        0x67452301u32,
        0xEFCDAB89u32,
        0x98BADCFEu32,
        0x10325476u32,
        0xC3D2E1F0u32,
    );
    let n = m.len() / 64;
    let mut i: usize = 0;
    while i < n
        invariant
            i <= n,
            n == m@.len() / 64,
            m@.len() % 64 == 0,
            h == blocos(m@, i as nat),
        decreases n - i,
    {
        assert(64 * i + 64 <= m.len()) by (nonlinear_arith)
            requires
                i < n,
                n == m.len() / 64,
                m.len() % 64 == 0,
        ;
        h = comprimir(h, &m, 64 * i);
        proof {
            assert(64 * (i + 1 - 1) == 64 * i);
        }
        i = i + 1;
    }
    let (a, b, c, d, e) = h;
    let r: [u8; 20] = [
        (a >> 24u32) as u8,
        (a >> 16u32) as u8,
        (a >> 8u32) as u8,
        a as u8,
        (b >> 24u32) as u8,
        (b >> 16u32) as u8,
        (b >> 8u32) as u8,
        b as u8,
        (c >> 24u32) as u8,
        (c >> 16u32) as u8,
        (c >> 8u32) as u8,
        c as u8,
        (d >> 24u32) as u8,
        (d >> 16u32) as u8,
        (d >> 8u32) as u8,
        d as u8,
        (e >> 24u32) as u8,
        (e >> 16u32) as u8,
        (e >> 8u32) as u8,
        e as u8,
    ];
    assert(r@ =~= sha1_de(dados@));
    r
}

// ───────────────────────────── base64

/// O caractere de base64 para o valor `v` (`v < 64`).
pub open spec fn letra64(v: u32) -> char {
    if v < 26 {
        ((65 + v) as u8) as char
    } else if v < 52 {
        ((97 + (v - 26)) as u8) as char
    } else if v < 62 {
        ((48 + (v - 52)) as u8) as char
    } else if v == 62 {
        '+'
    } else {
        '/'
    }
}

/// Um grupo de até três bytes vira quatro caracteres, com `=` no lugar do que falta.
pub open spec fn grupo64(p: Seq<u8>) -> Seq<char> {
    let b1: u8 = if p.len() > 1 {
        p[1]
    } else {
        0
    };
    let b2: u8 = if p.len() > 2 {
        p[2]
    } else {
        0
    };
    let n: u32 = ((p[0] as u32) << 16u32) | ((b1 as u32) << 8u32) | (b2 as u32);
    seq![
        letra64((n >> 18u32) & 63),
        letra64((n >> 12u32) & 63),
        if p.len() > 1 {
            letra64((n >> 6u32) & 63)
        } else {
            '='
        },
        if p.len() > 2 {
            letra64(n & 63)
        } else {
            '='
        },
    ]
}

/// Base64 (RFC 4648, com preenchimento).
pub open spec fn base64_de(d: Seq<u8>) -> Seq<char>
    decreases d.len(),
{
    if d.len() == 0 {
        seq![]
    } else if d.len() <= 3 {
        grupo64(d)
    } else {
        grupo64(d.take(3)) + base64_de(d.skip(3))
    }
}

fn letra(v: u32) -> (c: char)
    requires
        v < 64,
    ensures
        c == letra64(v),
{
    if v < 26 {
        ((65 + v) as u8) as char
    } else if v < 52 {
        ((97 + (v - 26)) as u8) as char
    } else if v < 62 {
        ((48 + (v - 52)) as u8) as char
    } else if v == 62 {
        '+'
    } else {
        '/'
    }
}

pub fn base64(dados: &[u8]) -> (r: String)
    ensures
        r@ == base64_de(dados@),
{
    let mut s: Vec<char> = Vec::new();
    let mut i: usize = 0;
    assert(dados@.skip(0) =~= dados@);
    assert(s@ + base64_de(dados@) =~= base64_de(dados@));
    while i < dados.len()
        invariant
            i <= dados@.len(),
            base64_de(dados@) == s@ + base64_de(dados@.skip(i as int)),
        decreases dados.len() - i,
    {
        let ghost resto = dados@.skip(i as int);
        let falta = dados.len() - i;
        let b0 = dados[i];
        let b1: u8 = if falta > 1 {
            dados[i + 1]
        } else {
            0
        };
        let b2: u8 = if falta > 2 {
            dados[i + 2]
        } else {
            0
        };
        let n: u32 = ((b0 as u32) << 16u32) | ((b1 as u32) << 8u32) | (b2 as u32);
        assert((n >> 18u32) & 63 < 64 && (n >> 12u32) & 63 < 64 && (n >> 6u32) & 63 < 64 && n & 63
            < 64) by (bit_vector);
        let ghost antes = s@;
        s.push(letra((n >> 18u32) & 63));
        s.push(letra((n >> 12u32) & 63));
        if falta > 1 {
            s.push(letra((n >> 6u32) & 63));
        } else {
            s.push('=');
        }
        if falta > 2 {
            s.push(letra(n & 63));
        } else {
            s.push('=');
        }
        proof {
            let g = if resto.len() <= 3 {
                resto
            } else {
                resto.take(3)
            };
            assert(g[0] == b0);
            assert(g.len() > 1 ==> g[1] == b1);
            assert(g.len() > 2 ==> g[2] == b2);
            assert(s@ =~= antes + grupo64(g));
            if resto.len() > 3 {
                assert(resto.skip(3) =~= dados@.skip(i + 3));
            }
        }
        if falta > 3 {
            i = i + 3;
        } else {
            i = dados.len();
            assert(dados@.skip(i as int) =~= Seq::<u8>::empty());
        }
        assert(s@ + base64_de(dados@.skip(i as int)) =~= base64_de(dados@)) by {
            if falta <= 3 {
                assert(base64_de(Seq::<u8>::empty()) == Seq::<char>::empty());
            }
        }
    }
    assert(dados@.skip(i as int) =~= Seq::<u8>::empty());
    assert(s@ + Seq::<char>::empty() =~= s@);
    string_de(s.as_slice())
}

// ───────────────────────────── o handshake

/// `a` e `b` iguais sem olhar a caixa ASCII.
pub open spec fn minuscula_ascii(c: char) -> char {
    if 'A' <= c <= 'Z' {
        ((c as u32) + 32) as char
    } else {
        c
    }
}

pub open spec fn igual_sem_caixa(a: Seq<char>, b: Seq<char>) -> bool {
    a.len() == b.len() && forall|i: int| 0 <= i < a.len() ==> minuscula_ascii(a[i]) == minuscula_ascii(b[i])
}

/// O valor de um cabeçalho `Sec-WebSocket-Key: v` numa linha, se for ele.
pub open spec fn chave_na_linha(l: Seq<char>) -> Option<Seq<char>> {
    match crate::registro::pos_de(l, ':') {
        None => None,
        Some(j) => if igual_sem_caixa(
            crate::texto::aparado(l.subrange(0, j as int)),
            "sec-websocket-key"@,
        ) {
            Some(crate::texto::aparado(l.subrange(j as int + 1, l.len() as int)))
        } else {
            None
        },
    }
}

/// A primeira linha que traz a chave.
pub open spec fn chave_nas_linhas(ls: Seq<Seq<char>>) -> Option<Seq<char>>
    decreases ls.len(),
{
    if ls.len() == 0 {
        None
    } else {
        match chave_nas_linhas(ls.drop_last()) {
            Some(k) => Some(k),
            None => chave_na_linha(ls.last()),
        }
    }
}

fn minuscula_ascii_exec(c: char) -> (r: char)
    ensures
        r == minuscula_ascii(c),
{
    if 'A' <= c && c <= 'Z' {
        (((c as u32) + 32) as u8) as char
    } else {
        c
    }
}

pub(crate) fn igual_sem_caixa_exec(a: &[char], b: &[char]) -> (r: bool)
    ensures
        r == igual_sem_caixa(a@, b@),
{
    if a.len() != b.len() {
        return false;
    }
    let mut i: usize = 0;
    while i < a.len()
        invariant
            i <= a@.len(),
            a@.len() == b@.len(),
            forall|k: int| 0 <= k < i ==> minuscula_ascii(a@[k]) == minuscula_ascii(b@[k]),
        decreases a.len() - i,
    {
        if minuscula_ascii_exec(a[i]) != minuscula_ascii_exec(b[i]) {
            return false;
        }
        i = i + 1;
    }
    true
}

/// O valor de `Sec-WebSocket-Key` nos cabeçalhos do pedido, se veio.
pub fn chave_do_handshake(cabecalhos: &str) -> (r: Option<String>)
    ensures
        match chave_nas_linhas(crate::diario::linhas(cabecalhos@)) {
            Some(k) => r matches Some(x) && x@ == k,
            None => r is None,
        },
{
    let ls = crate::diario::linhas_de_texto(cabecalhos);
    let ghost lv = crate::diario::linhas(cabecalhos@);
    let alvo = caracteres("sec-websocket-key");
    let mut i: usize = 0;
    assert(lv.take(0) =~= Seq::<Seq<char>>::empty());
    while i < ls.len()
        invariant
            i <= ls@.len(),
            crate::texto::vistas(ls@) == lv,
            lv == crate::diario::linhas(cabecalhos@),
            alvo@ == "sec-websocket-key"@,
            chave_nas_linhas(lv.take(i as int)) is None,
        decreases ls.len() - i,
    {
        assert(lv.take(i + 1).drop_last() =~= lv.take(i as int));
        assert(lv.take(i + 1).last() == ls@[i as int]@);
        let l = &ls[i];
        proof {
            crate::registro::lema_pos_de(l@, ':');
        }
        let nl = l.len();
        match crate::registro::pos_char(l.as_slice(), ':') {
            Some(j) => {
                assert(j < l@.len());
                let k = crate::texto::fatia(l.as_slice(), 0, j);
                let ka = crate::texto::aparar(k.as_slice());
                if igual_sem_caixa_exec(ka.as_slice(), alvo.as_slice()) {
                    let v = crate::texto::fatia(l.as_slice(), j + 1, nl);
                    let va = crate::texto::aparar(v.as_slice());
                    proof {
                        assert(crate::registro::pos_de(l@, ':') == Some(j as nat));
                        assert(k@ == l@.subrange(0, j as int));
                        assert(v@ == l@.subrange(j as int + 1, l@.len() as int));
                        assert(chave_na_linha(l@) == Some(va@));
                        assert(chave_nas_linhas(lv.take(i + 1)) == Some(va@));
                        lema_chave_prefixo(lv, i as int + 1);
                    }
                    return Some(string_de(va.as_slice()));
                }
                proof {
                    assert(crate::registro::pos_de(l@, ':') == Some(j as nat));
                    assert(k@ == l@.subrange(0, j as int));
                    assert(chave_na_linha(l@) is None);
                }
            },
            None => {
                assert(chave_na_linha(l@) is None);
            },
        }
        assert(chave_nas_linhas(lv.take(i + 1)) is None);
        i = i + 1;
    }
    assert(lv.take(ls@.len() as int) =~= lv);
    None
}

proof fn lema_chave_prefixo(ls: Seq<Seq<char>>, j: int)
    requires
        0 <= j <= ls.len(),
        chave_nas_linhas(ls.take(j)) is Some,
    ensures
        chave_nas_linhas(ls) == chave_nas_linhas(ls.take(j)),
    decreases ls.len(),
{
    if j == ls.len() {
        assert(ls.take(j) =~= ls);
    } else {
        assert(ls.drop_last().take(j) =~= ls.take(j));
        lema_chave_prefixo(ls.drop_last(), j);
    }
}

/// O que o servidor devolve para provar que entendeu: `base64(sha1(chave + GUID))`.
pub open spec fn aceite_de(chave: Seq<char>) -> Seq<char> {
    base64_de(sha1_de(vstd::utf8::encode_utf8(chave) + vstd::utf8::encode_utf8(GUID@)))
}

pub fn aceite(chave: &str) -> (r: String)
    requires
        (vstd::utf8::encode_utf8(chave@).len() + 36) * 8 <= u64::MAX,
        vstd::utf8::encode_utf8(chave@).len() + 36 + 128 <= usize::MAX,
    ensures
        r@ == aceite_de(chave@),
{
    let mut b: Vec<u8> = Vec::new();
    crate::texto::acrescentar_bytes(&mut b, chave.as_bytes());
    let g = GUID.as_bytes();
    proof {
        reveal_strlit("258EAFA5-E914-47DA-95CA-C5AB0DC85B11");
        vstd::utf8::is_ascii_chars_encode_utf8(GUID@);
    }
    assert(g@.len() == 36);
    crate::texto::acrescentar_bytes(&mut b, g);
    let h = sha1(b.as_slice());
    base64(&h)
}

/// A resposta ao pedido de upgrade, com o aceite já calculado.
pub open spec fn resposta_de_upgrade(aceite: Seq<char>) -> Seq<char> {
    "HTTP/1.1 101 Switching Protocols\r\nUpgrade: websocket\r\nConnection: Upgrade\r\nSec-WebSocket-Accept: "@
        + aceite + "\r\n\r\n"@
}

pub fn resposta_do_handshake(aceite: &str) -> (r: String)
    ensures
        r@ == resposta_de_upgrade(aceite@),
{
    let mut s = copiar(
        "HTTP/1.1 101 Switching Protocols\r\nUpgrade: websocket\r\nConnection: Upgrade\r\nSec-WebSocket-Accept: ",
    );
    acrescentar_str(&mut s, aceite);
    acrescentar_str(&mut s, "\r\n\r\n");
    s
}

// ───────────────────────────── quadros e mensagens

/// Um quadro de texto do servidor: `FIN` + texto, o tamanho, e os bytes. **Servidor
/// não mascara** — é regra do protocolo.
pub open spec fn quadro_de(b: Seq<u8>) -> Seq<u8> {
    if b.len() < 126 {
        seq![0x81u8, b.len() as u8] + b
    } else if b.len() < 65536 {
        seq![0x81u8, 126u8, (b.len() / 256) as u8, (b.len() % 256) as u8] + b
    } else {
        seq![0x81u8, 127u8] + be64(b.len() as u64) + b
    }
}

pub fn quadro_de_texto(texto: &str) -> (r: Vec<u8>)
    ensures
        r@ == quadro_de(vstd::utf8::encode_utf8(texto@)),
{
    let b = texto.as_bytes();
    let n = b.len();
    let mut q: Vec<u8> = Vec::new();
    q.push(0x81);
    if n < 126 {
        q.push(n as u8);
    } else if n < 65536 {
        q.push(126);
        q.push((n / 256) as u8);
        q.push((n % 256) as u8);
    } else {
        q.push(127);
        let t = be64_exec(n as u64);
        crate::texto::acrescentar_bytes(&mut q, t.as_slice());
    }
    crate::texto::acrescentar_bytes(&mut q, b);
    assert(q@ =~= quadro_de(vstd::utf8::encode_utf8(texto@)));
    q
}

/// Tira a máscara que o cliente põe: cada byte com o byte da máscara da sua posição
/// módulo 4.
pub fn desmascarar(dados: &mut Vec<u8>, mascara: [u8; 4])
    ensures
        final(dados)@.len() == old(dados)@.len(),
        forall|i: int|
            0 <= i < final(dados)@.len() ==> final(dados)@[i] == old(dados)@[i] ^ mascara@[i % 4],
{
    let mut i: usize = 0;
    while i < dados.len()
        invariant
            i <= dados@.len(),
            dados@.len() == old(dados)@.len(),
            forall|k: int| 0 <= k < i ==> dados@[k] == old(dados)@[k] ^ mascara@[k % 4],
            forall|k: int| i <= k < dados@.len() ==> dados@[k] == old(dados)@[k],
        decreases dados.len() - i,
    {
        let b = dados[i] ^ mascara[i % 4];
        dados.set(i, b);
        i = i + 1;
    }
}

// ───────────────────────────── lendo um quadro

/// Os dois primeiros bytes de um quadro: o opcode, se vem mascarado e o tamanho de
/// sete bits (126 e 127 dizem que o tamanho de verdade vem em 2 ou 8 bytes).
#[derive(Clone, Copy, Debug, PartialEq, Eq, Structural)]
pub struct CabecalhoQuadro {
    pub opcode: u8,
    pub mascarado: bool,
    pub tamanho: u8,
}

pub open spec fn cabecalho_de(b0: u8, b1: u8) -> CabecalhoQuadro {
    CabecalhoQuadro { opcode: b0 % 16, mascarado: b1 >= 128, tamanho: b1 % 128 }
}

/// Lê os dois primeiros bytes de um quadro.
pub fn cabecalho_do_quadro(b0: u8, b1: u8) -> (r: CabecalhoQuadro)
    ensures
        r == cabecalho_de(b0, b1),
{
    let opcode = b0 & 0x0F;
    let mascarado = b1 & 0x80 != 0;
    let tamanho = b1 & 0x7F;
    assert(b0 & 0x0F == b0 % 16) by (bit_vector);
    assert((b1 & 0x80 != 0) == (b1 >= 128)) by (bit_vector);
    assert(b1 & 0x7F == b1 % 128) by (bit_vector);
    CabecalhoQuadro { opcode, mascarado, tamanho }
}

/// Quantos bytes de tamanho estendido vêm depois do cabeçalho.
pub open spec fn extensao(tamanho: u8) -> nat {
    if tamanho == 126 {
        2
    } else if tamanho == 127 {
        8
    } else {
        0
    }
}

pub fn bytes_de_extensao(tamanho: u8) -> (r: usize)
    ensures
        r == extensao(tamanho),
{
    if tamanho == 126 {
        2
    } else if tamanho == 127 {
        8
    } else {
        0
    }
}

/// Oito bytes big-endian.
pub open spec fn u64_be(e: Seq<u8>) -> u64 {
    ((e[0] as u64) << 56u64) | ((e[1] as u64) << 48u64) | ((e[2] as u64) << 40u64) | ((e[3] as u64)
        << 32u64) | ((e[4] as u64) << 24u64) | ((e[5] as u64) << 16u64) | ((e[6] as u64) << 8u64)
        | (e[7] as u64)
}

/// O tamanho dos dados: o de sete bits, ou o que vem nos bytes de extensão.
pub open spec fn tamanho_de(tamanho: u8, ext: Seq<u8>) -> u64 {
    if tamanho == 126 {
        (ext[0] as u64 * 256 + ext[1] as u64) as u64
    } else if tamanho == 127 {
        u64_be(ext)
    } else {
        tamanho as u64
    }
}

/// O tamanho dos dados, dados o tamanho de sete bits e os bytes de extensão.
pub fn tamanho_do_quadro(tamanho: u8, ext: &[u8]) -> (r: u64)
    requires
        ext@.len() == extensao(tamanho),
    ensures
        r == tamanho_de(tamanho, ext@),
{
    if tamanho == 126 {
        (ext[0] as u64) * 256 + (ext[1] as u64)
    } else if tamanho == 127 {
        ((ext[0] as u64) << 56) | ((ext[1] as u64) << 48) | ((ext[2] as u64) << 40) | ((ext[3] as u64)
            << 32) | ((ext[4] as u64) << 24) | ((ext[5] as u64) << 16) | ((ext[6] as u64) << 8)
            | (ext[7] as u64)
    } else {
        tamanho as u64
    }
}

pub open spec fn texto_do_quadro_de(opcode: u8, dados: Seq<u8>) -> Option<Seq<char>> {
    if opcode == 1 {
        Some(crate::texto::utf8_com_perdas(dados))
    } else {
        None
    }
}

/// Os dados já desmascarados de um quadro: texto se o opcode é de texto; fechar,
/// ping e pong não são resposta a comando.
pub fn texto_do_quadro(opcode: u8, dados: &[u8]) -> (r: Option<String>)
    ensures
        match texto_do_quadro_de(opcode, dados@) {
            Some(t) => r matches Some(x) && x@ == t,
            None => r is None,
        },
{
    if opcode == 1 {
        Some(crate::texto::de_utf8_com_perdas(dados))
    } else {
        None
    }
}

/// Um quadro que a ponte escreve se lê de volta: é de texto, não vem mascarado, o
/// tamanho que o cabeçalho diz é o dos dados, e os dados vêm logo depois.
pub proof fn lei_o_quadro_se_le_de_volta(b: Seq<u8>)
    requires
        b.len() <= u64::MAX,
    ensures
        ({
            let q = quadro_de(b);
            let c = cabecalho_de(q[0], q[1]);
            let n = extensao(c.tamanho);
            &&& c.opcode == 1
            &&& !c.mascarado
            &&& q.len() == 2 + n + b.len()
            &&& tamanho_de(c.tamanho, q.subrange(2, 2 + n as int)) == b.len()
            &&& q.subrange(2 + n as int, q.len() as int) == b
        }),
{
    let q = quadro_de(b);
    assert(0x81u8 % 16 == 1);
    if b.len() < 126 {
        assert(q.subrange(2, q.len() as int) =~= b);
    } else if b.len() < 65536 {
        let e = q.subrange(2, 4);
        assert(e[0] == (b.len() / 256) as u8);
        assert(e[1] == (b.len() % 256) as u8);
        assert(q.subrange(4, q.len() as int) =~= b);
    } else {
        let x = b.len() as u64;
        let e = q.subrange(2, 10);
        assert(e =~= be64(x));
        assert(u64_be(be64(x)) == x) by (bit_vector);
        assert(q.subrange(10, q.len() as int) =~= b);
    }
}

/// O texto vai entre aspas num JSON: aspa e contrabarra ganham contrabarra, quebra
/// de linha e tabulação viram espaço.
pub open spec fn escape_json(c: char) -> Seq<char> {
    if c == '"' {
        seq!['\\', '"']
    } else if c == '\\' {
        seq!['\\', '\\']
    } else if c == '\n' || c == '\r' || c == '\t' {
        seq![' ']
    } else {
        seq![c]
    }
}

pub open spec fn escapado_json(s: Seq<char>) -> Seq<char>
    decreases s.len(),
{
    if s.len() == 0 {
        seq![]
    } else {
        escapado_json(s.drop_last()) + escape_json(s.last())
    }
}

pub fn escapar(s: &str) -> (r: String)
    ensures
        r@ == escapado_json(s@),
{
    let c = caracteres(s);
    let mut r: Vec<char> = Vec::new();
    let mut i: usize = 0;
    assert(s@.take(0) =~= Seq::<char>::empty());
    while i < c.len()
        invariant
            i <= c@.len(),
            c@ == s@,
            r@ == escapado_json(s@.take(i as int)),
        decreases c.len() - i,
    {
        let x = c[i];
        assert(s@.take(i + 1).drop_last() =~= s@.take(i as int));
        if x == '"' {
            r.push('\\');
            r.push('"');
        } else if x == '\\' {
            r.push('\\');
            r.push('\\');
        } else if x == '\n' || x == '\r' || x == '\t' {
            r.push(' ');
        } else {
            r.push(x);
        }
        i = i + 1;
        assert(r@ =~= escapado_json(s@.take(i as int)));
    }
    assert(s@.take(c@.len() as int) =~= s@);
    string_de(r.as_slice())
}

/// A mensagem de um comando para a extensão, com o número do pedido.
pub open spec fn mensagem_de(cmd: Seq<char>, consulta: Option<Seq<char>>, id: u64) -> Seq<char> {
    match consulta {
        Some(q) => "{\"cmd\":\""@ + escapado_json(cmd) + "\",\"query\":\""@ + escapado_json(q)
            + "\",\"id\":"@ + decimal(id) + "}"@,
        None => "{\"cmd\":\""@ + escapado_json(cmd) + "\",\"id\":"@ + decimal(id) + "}"@,
    }
}

pub fn mensagem(cmd: &str, consulta: Option<&str>, id: u64) -> (r: String)
    ensures
        r@ == mensagem_de(cmd@, match consulta {
            Some(q) => Some(q@),
            None => None,
        }, id),
{
    let mut s = copiar("{\"cmd\":\"");
    let e = escapar(cmd);
    acrescentar_str(&mut s, e.as_str());
    match consulta {
        Some(q) => {
            acrescentar_str(&mut s, "\",\"query\":\"");
            let eq = escapar(q);
            acrescentar_str(&mut s, eq.as_str());
        },
        None => {},
    }
    acrescentar_str(&mut s, "\",\"id\":");
    let mut v = caracteres_de_string(&s);
    escrever_decimal(id, &mut v);
    v.push('}');
    proof {
        reveal_strlit("}");
    }
    let r = string_de(v.as_slice());
    assert(r@ =~= mensagem_de(cmd@, match consulta {
        Some(q) => Some(q@),
        None => None,
    }, id));
    r
}

fn caracteres_de_string(s: &String) -> (v: Vec<char>)
    ensures
        v@ == s@,
{
    crate::texto::caracteres_de(s)
}

} // verus!
