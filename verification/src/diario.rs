//! Diário de execução: um efeito colateral acontece **no máximo uma vez**.
//!
//! Antes de executar, grava `iniciado` e sincroniza com o disco. Depois de
//! executar, grava `concluido` com o recibo. A ordem é o que dá a garantia:
//!
//! | o que está no disco | o que aconteceu | veredito |
//! |---|---|---|
//! | nada | nunca tentou | `Executar` |
//! | `iniciado` + `concluido` | terminou | `Repetir(recibo)` — não reexecuta |
//! | só `iniciado` | morreu no meio | `Incerto` — **falha fechada** |
//! | `falhou` | a ferramenta relatou erro | `FalhouAntes(erro)` — pode repetir |
//!
//! Este módulo guarda o estado e sabe ler e escrever as linhas do registro; quem
//! abre o arquivo, acrescenta a linha e sincroniza é o programa.
use vstd::prelude::*;
use vstd::wrapping::u64_specs::wrapping_mul;
use crate::texto::{
    vistas, caracteres, caracteres_de, decimal, digito, escrever_decimal, fatia, igual_str, iguais,
    string_de,
};

verus! {

#[derive(Clone, Debug, PartialEq, Eq)]
pub enum Veredito {
    /// Nunca foi tentado: pode executar.
    Executar,
    /// Já concluiu. O recibo é o que se devolve em vez de reexecutar.
    Repetir(String),
    /// Começou e não se sabe se terminou. Falha fechada.
    Incerto,
    /// Tentou e a **própria ferramenta** relatou erro. Repetir é permitido, e o
    /// erro anterior vai junto.
    FalhouAntes(String),
}

/// Uma entrada do diário: (concluída, falhou, recibo).
pub type EntradaS = (bool, bool, Seq<char>);

#[derive(Clone, Debug)]
struct Entrada {
    concluida: bool,
    /// A tentativa anterior terminou em erro relatado pela ferramenta.
    falhou: bool,
    recibo: String,
}

impl View for Entrada {
    type V = EntradaS;

    closed spec fn view(&self) -> EntradaS {
        (self.concluida, self.falhou, self.recibo@)
    }
}

#[derive(Debug)]
pub struct Diario {
    caminho: String,
    entradas: Vec<(String, Entrada)>,
}

spec fn mapa_de(v: Seq<(String, Entrada)>) -> Map<Seq<char>, EntradaS>
    decreases v.len(),
{
    if v.len() == 0 {
        Map::empty()
    } else {
        mapa_de(v.drop_last()).insert(v.last().0@, v.last().1@)
    }
}

spec fn chaves_unicas(v: Seq<(String, Entrada)>) -> bool {
    forall|i: int, j: int| 0 <= i < j < v.len() ==> v[i].0@ != v[j].0@
}

proof fn lema_mapa_busca(v: Seq<(String, Entrada)>, k: Seq<char>)
    requires
        chaves_unicas(v),
    ensures
        mapa_de(v).contains_key(k) <==> exists|i: int| 0 <= i < v.len() && v[i].0@ == k,
        forall|i: int| 0 <= i < v.len() && v[i].0@ == k ==> mapa_de(v)[k] == v[i].1@,
    decreases v.len(),
{
    if v.len() > 0 {
        let w = v.drop_last();
        lema_mapa_busca(w, k);
        if v.last().0@ != k {
            if exists|i: int| 0 <= i < v.len() && v[i].0@ == k {
                let i = choose|i: int| 0 <= i < v.len() && v[i].0@ == k;
                assert(i < w.len() && w[i].0@ == k);
            }
            assert forall|i: int| 0 <= i < v.len() && v[i].0@ == k implies i < w.len() by {}
            if mapa_de(w).contains_key(k) {
                let i = choose|i: int| 0 <= i < w.len() && w[i].0@ == k;
                assert(v[i].0@ == k);
            }
            assert forall|i: int| 0 <= i < v.len() && v[i].0@ == k implies mapa_de(v)[k]
                == v[i].1@ by {
                assert(w[i] == v[i]);
            }
        } else {
            assert(v[v.len() - 1].0@ == k);
            assert forall|i: int| 0 <= i < v.len() && v[i].0@ == k implies i == v.len() - 1 by {
                if i < v.len() - 1 {
                    assert(v[i].0@ != v[v.len() - 1].0@);
                }
            }
        }
    }
}

proof fn lema_mapa_troca(v: Seq<(String, Entrada)>, i: int, x: (String, Entrada))
    requires
        chaves_unicas(v),
        0 <= i < v.len(),
        v[i].0@ == x.0@,
    ensures
        mapa_de(v.update(i, x)) == mapa_de(v).insert(x.0@, x.1@),
        chaves_unicas(v.update(i, x)),
    decreases v.len(),
{
    let u = v.update(i, x);
    if i == v.len() - 1 {
        assert(u.drop_last() =~= v.drop_last());
        assert(mapa_de(u) =~= mapa_de(v).insert(x.0@, x.1@));
    } else {
        lema_mapa_troca(v.drop_last(), i, x);
        assert(u.drop_last() =~= v.drop_last().update(i, x));
        assert(mapa_de(u) =~= mapa_de(v).insert(x.0@, x.1@));
    }
}

/// O veredito que uma entrada dá.
pub open spec fn veredito_de(e: Option<EntradaS>) -> (bool, bool, bool, Seq<char>) {
    // (executar, repetir, falhou_antes, recibo); nenhum dos três = incerto
    match e {
        None => (true, false, false, seq![]),
        Some(x) => if x.0 {
            (false, true, false, x.2)
        } else if x.1 {
            (false, false, true, x.2)
        } else {
            (false, false, false, seq![])
        },
    }
}

/// A entrada da chave `k`, se o diário a conhece.
pub open spec fn entrada_em(m: Map<Seq<char>, EntradaS>, k: Seq<char>) -> Option<EntradaS> {
    if m.contains_key(k) {
        Some(m[k])
    } else {
        None
    }
}

pub open spec fn veredito_vale(v: Veredito, e: Option<EntradaS>) -> bool {
    match e {
        None => v is Executar,
        Some(x) => if x.0 {
            v matches Veredito::Repetir(r) && r@ == x.2
        } else if x.1 {
            v matches Veredito::FalhouAntes(r) && r@ == x.2
        } else {
            v is Incerto
        },
    }
}

/// O que uma linha do registro faz ao estado.
pub open spec fn aplicar_linha(m: Map<Seq<char>, EntradaS>, linha: Seq<char>) -> Map<
    Seq<char>,
    EntradaS,
> {
    let c = campos(linha);
    if c.len() < 2 {
        m
    } else {
        let recibo = if c.len() >= 4 {
            c[3]
        } else {
            seq![]
        };
        if c[0] == "iniciado"@ {
            m.insert(c[1], (false, false, seq![]))
        } else if c[0] == "falhou"@ {
            m.insert(c[1], (false, true, desescapado(recibo)))
        } else if c[0] == "concluido"@ {
            m.insert(c[1], (true, false, desescapado(recibo)))
        } else {
            m
        }
    }
}

/// `linha.splitn(4, '\t')`: até quatro campos, o último com o resto da linha.
pub open spec fn campos(linha: Seq<char>) -> Seq<Seq<char>> {
    campos_de(linha, 0, seq![], seq![])
}

pub open spec fn campos_de(l: Seq<char>, i: int, feitos: Seq<Seq<char>>, atual: Seq<char>) -> Seq<
    Seq<char>,
>
    decreases l.len() - i,
{
    if i >= l.len() {
        feitos.push(atual)
    } else if l[i] == '\t' && feitos.len() < 3 {
        campos_de(l, i + 1, feitos.push(atual), seq![])
    } else {
        campos_de(l, i + 1, feitos, atual.push(l[i]))
    }
}

/// `t` cortado em cada `\n`: sempre um pedaço a mais que o número de `\n`.
pub open spec fn pedacos(t: Seq<char>) -> Seq<Seq<char>>
    decreases t.len(),
{
    if t.len() == 0 {
        seq![seq![]]
    } else if t.last() == '\n' {
        pedacos(t.drop_last()).push(seq![])
    } else {
        let p = pedacos(t.drop_last());
        p.update(p.len() - 1, p.last().push(t.last()))
    }
}

/// Tira o `\r` de um `\r\n`.
pub open spec fn sem_cr(l: Seq<char>) -> Seq<char> {
    if l.len() > 0 && l.last() == '\r' {
        l.drop_last()
    } else {
        l
    }
}

pub open spec fn sem_cr_todas(ls: Seq<Seq<char>>) -> Seq<Seq<char>> {
    ls.map_values(|l: Seq<char>| sem_cr(l))
}

/// `lines()`: corta em `\n`, tira o `\r` de um `\r\n`, e não devolve a linha
/// vazia depois do último `\n`. Um `\r` no fim sem `\n` depois fica.
pub open spec fn linhas(t: Seq<char>) -> Seq<Seq<char>> {
    let p = pedacos(t);
    if p.last().len() == 0 {
        sem_cr_todas(p.drop_last())
    } else {
        sem_cr_todas(p.drop_last()).push(p.last())
    }
}

proof fn lema_pedacos_nao_vazio(t: Seq<char>)
    ensures
        pedacos(t).len() >= 1,
    decreases t.len(),
{
    if t.len() > 0 {
        lema_pedacos_nao_vazio(t.drop_last());
    }
}

/// O estado que um registro inteiro descreve.
pub open spec fn estado_do_registro(ls: Seq<Seq<char>>) -> Map<Seq<char>, EntradaS>
    decreases ls.len(),
{
    if ls.len() == 0 {
        Map::empty()
    } else {
        aplicar_linha(estado_do_registro(ls.drop_last()), ls.last())
    }
}

// ───────────────────────────── escape do recibo

pub open spec fn escape_de(c: char) -> Seq<char> {
    if c == '\\' {
        seq!['\\', '\\']
    } else if c == '\t' {
        seq!['\\', 't']
    } else if c == '\n' {
        seq!['\\', 'n']
    } else {
        seq![c]
    }
}

/// O recibo vai numa linha separada por tabulação: nem tab nem quebra sobrevivem
/// crus.
pub open spec fn escapado(s: Seq<char>) -> Seq<char>
    decreases s.len(),
{
    if s.len() == 0 {
        seq![]
    } else {
        escape_de(s[0]) + escapado(s.drop_first())
    }
}

pub open spec fn sem_escape(c: char) -> char {
    if c == 't' {
        '\t'
    } else if c == 'n' {
        '\n'
    } else {
        c
    }
}

pub open spec fn desescapado(s: Seq<char>) -> Seq<char>
    decreases s.len(),
{
    if s.len() == 0 {
        seq![]
    } else if s[0] != '\\' {
        seq![s[0]] + desescapado(s.drop_first())
    } else if s.len() == 1 {
        seq!['\\']
    } else {
        seq![sem_escape(s[1])] + desescapado(s.subrange(2, s.len() as int))
    }
}

pub proof fn lema_escapado_soma(a: Seq<char>, b: Seq<char>)
    ensures
        escapado(a + b) == escapado(a) + escapado(b),
    decreases a.len(),
{
    if a.len() == 0 {
        assert(a + b =~= b);
    } else {
        assert((a + b).drop_first() =~= a.drop_first() + b);
        lema_escapado_soma(a.drop_first(), b);
    }
}

/// Desfazer o escape devolve o recibo original.
pub proof fn lei_escape_ida_e_volta(s: Seq<char>)
    ensures
        desescapado(escapado(s)) == s,
    decreases s.len(),
{
    if s.len() > 0 {
        let e = escapado(s);
        let r = escapado(s.drop_first());
        lei_escape_ida_e_volta(s.drop_first());
        let c = s[0];
        if c == '\\' || c == '\t' || c == '\n' {
            assert(e =~= seq!['\\', if c == '\\' { '\\' } else if c == '\t' { 't' } else { 'n' }] + r);
            assert(e.subrange(2, e.len() as int) =~= r);
        } else {
            assert(e =~= seq![c] + r);
            assert(e.drop_first() =~= r);
        }
        assert(s =~= seq![c] + s.drop_first());
    }
}

/// O recibo escapado não tem tabulação nem quebra de linha.
pub proof fn lei_escape_sem_tab_nem_quebra(s: Seq<char>)
    ensures
        !escapado(s).contains('\t'),
        !escapado(s).contains('\n'),
    decreases s.len(),
{
    if s.len() > 0 {
        lei_escape_sem_tab_nem_quebra(s.drop_first());
        let e = escapado(s);
        assert(e =~= escape_de(s[0]) + escapado(s.drop_first()));
        assert forall|i: int| 0 <= i < e.len() implies e[i] != '\t' && e[i] != '\n' by {
            if i >= escape_de(s[0]).len() {
                assert(e[i] == escapado(s.drop_first())[i - escape_de(s[0]).len()]);
            }
        }
    }
}

fn escapar_exec(s: &[char]) -> (r: Vec<char>)
    ensures
        r@ == escapado(s@),
{
    let mut r: Vec<char> = Vec::new();
    let mut i: usize = 0;
    while i < s.len()
        invariant
            i <= s.len(),
            r@ == escapado(s@.take(i as int)),
        decreases s.len() - i,
    {
        let c = s[i];
        proof {
            lema_escapado_soma(s@.take(i as int), seq![c]);
            assert(s@.take(i + 1) =~= s@.take(i as int) + seq![c]);
            assert(escapado(seq![c]) =~= escape_de(c)) by {
                assert(seq![c].drop_first() =~= Seq::<char>::empty());
                assert(escapado(Seq::<char>::empty()) == Seq::<char>::empty());
                assert(seq![c][0] == c);
            }
        }
        if c == '\\' {
            r.push('\\');
            r.push('\\');
        } else if c == '\t' {
            r.push('\\');
            r.push('t');
        } else if c == '\n' {
            r.push('\\');
            r.push('n');
        } else {
            r.push(c);
        }
        i = i + 1;
        assert(r@ =~= escapado(s@.take(i as int)));
    }
    assert(s@.take(s.len() as int) =~= s@);
    r
}

/// `escapar`: `\` vira `\\`, tab vira `\t`, quebra vira `\n`.
pub fn escapar(s: &str) -> (r: String)
    ensures
        r@ == escapado(s@),
{
    let v = caracteres(s);
    let e = escapar_exec(v.as_slice());
    string_de(e.as_slice())
}

fn desescapar_exec(s: &[char]) -> (r: Vec<char>)
    ensures
        r@ == desescapado(s@),
{
    let mut r: Vec<char> = Vec::new();
    let mut i: usize = 0;
    assert(s@.subrange(0, s.len() as int) =~= s@);
    while i < s.len()
        invariant
            i <= s.len(),
            r@ + desescapado(s@.subrange(i as int, s.len() as int)) == desescapado(s@),
        decreases s.len() - i,
    {
        let ghost resto = s@.subrange(i as int, s.len() as int);
        let c = s[i];
        if c != '\\' {
            r.push(c);
            i = i + 1;
            assert(resto.drop_first() =~= s@.subrange(i as int, s.len() as int));
        } else if i + 1 == s.len() {
            r.push('\\');
            i = i + 1;
            assert(s@.subrange(i as int, s.len() as int) =~= Seq::<char>::empty());
        } else {
            let d = s[i + 1];
            let x = if d == 't' {
                '\t'
            } else if d == 'n' {
                '\n'
            } else {
                d
            };
            r.push(x);
            i = i + 2;
            assert(resto.subrange(2, resto.len() as int) =~= s@.subrange(i as int, s.len() as int));
        }
        assert(r@ + desescapado(s@.subrange(i as int, s.len() as int)) =~= desescapado(s@));
    }
    assert(s@.subrange(s.len() as int, s.len() as int) =~= Seq::<char>::empty());
    assert(r@ + Seq::<char>::empty() =~= r@);
    r
}

/// Desfaz o escape de `escapar`.
pub fn desescapar(s: &str) -> (r: String)
    ensures
        r@ == desescapado(s@),
{
    let v = caracteres(s);
    let d = desescapar_exec(v.as_slice());
    string_de(d.as_slice())
}

// ───────────────────────────── a chave

pub const FNV_BASE: u64 = 0xcbf2_9ce4_8422_2325;

pub const FNV_PRIMO: u64 = 0x0000_0100_0000_01b3;

/// FNV-1a de 64 bits sobre `bs`.
pub open spec fn fnv(h: u64, bs: Seq<u8>) -> u64
    decreases bs.len(),
{
    if bs.len() == 0 {
        h
    } else {
        fnv(wrapping_mul(h ^ (bs[0] as u64), FNV_PRIMO), bs.drop_first())
    }
}

/// Um campo: seus bytes e depois o separador `0xff`.
pub open spec fn misturado(h: u64, bs: Seq<u8>) -> u64 {
    wrapping_mul(fnv(h, bs) ^ 0xffu64, FNV_PRIMO)
}

/// `a < b` na ordem lexicográfica de caracteres (a mesma dos bytes em UTF-8).
pub open spec fn menor(a: Seq<char>, b: Seq<char>) -> bool
    decreases a.len(),
{
    if b.len() == 0 {
        false
    } else if a.len() == 0 {
        true
    } else if a[0] != b[0] {
        a[0] < b[0]
    } else {
        menor(a.drop_first(), b.drop_first())
    }
}

/// Insere `x` depois de todo elemento de chave `<=` à dele: ordenação estável.
pub open spec fn inserir_ordenado(s: Seq<(Seq<char>, Seq<char>)>, x: (Seq<char>, Seq<char>)) -> Seq<
    (Seq<char>, Seq<char>),
>
    decreases s.len(),
{
    if s.len() == 0 {
        seq![x]
    } else if menor(x.0, s.last().0) {
        inserir_ordenado(s.drop_last(), x).push(s.last())
    } else {
        s.push(x)
    }
}

/// `sort_by` estável pela chave do argumento.
pub open spec fn ordenado(s: Seq<(Seq<char>, Seq<char>)>) -> Seq<(Seq<char>, Seq<char>)>
    decreases s.len(),
{
    if s.len() == 0 {
        seq![]
    } else {
        inserir_ordenado(ordenado(s.drop_last()), s.last())
    }
}

pub open spec fn utf8(s: Seq<char>) -> Seq<u8> {
    vstd::utf8::encode_utf8(s)
}

/// O hash dos argumentos, já em ordem, depois do da ferramenta.
pub open spec fn hash_args(h: u64, args: Seq<(Seq<char>, Seq<char>)>) -> u64
    decreases args.len(),
{
    if args.len() == 0 {
        h
    } else {
        hash_args(misturado(misturado(h, utf8(args[0].0)), utf8(args[0].1)), args.drop_first())
    }
}

pub open spec fn digito_hex(v: u64) -> char {
    if v < 10 {
        ((v + 48) as u8) as char
    } else {
        ((v + 87) as u8) as char
    }
}

/// `format!("{h:016x}")`.
pub open spec fn hex16(h: u64) -> Seq<char> {
    Seq::new(16, |i: int| digito_hex((h >> ((60 - 4 * i) as u64)) & 15u64))
}

pub open spec fn vista_args(args: Seq<(String, String)>) -> Seq<(Seq<char>, Seq<char>)> {
    args.map_values(|a: (String, String)| (a.0@, a.1@))
}

/// A identidade de uma execução: ferramenta mais argumentos, estes em ordem de nome.
pub open spec fn chave_de(ferramenta: Seq<char>, args: Seq<(Seq<char>, Seq<char>)>) -> Seq<char> {
    hex16(hash_args(misturado(FNV_BASE, utf8(ferramenta)), ordenado(args)))
}

fn misturar(h: u64, bs: &[u8]) -> (r: u64)
    ensures
        r == misturado(h, bs@),
{
    let mut x = h;
    let mut i: usize = 0;
    assert(bs@.subrange(0, bs@.len() as int) =~= bs@);
    while i < bs.len()
        invariant
            i <= bs.len(),
            fnv(h, bs@) == fnv(x, bs@.subrange(i as int, bs@.len() as int)),
        decreases bs.len() - i,
    {
        assert(bs@.subrange(i as int, bs@.len() as int).drop_first() =~= bs@.subrange(
            i + 1,
            bs@.len() as int,
        ));
        x = (x ^ (bs[i] as u64)).wrapping_mul(FNV_PRIMO);
        i = i + 1;
    }
    assert(bs@.subrange(0, bs@.len() as int) =~= bs@);
    (x ^ 0xff).wrapping_mul(FNV_PRIMO)
}

fn menor_exec(a: &[char], b: &[char]) -> (r: bool)
    ensures
        r == menor(a@, b@),
{
    let mut i: usize = 0;
    assert(a@.subrange(0, a@.len() as int) =~= a@);
    assert(b@.subrange(0, b@.len() as int) =~= b@);
    while i < a.len() && i < b.len() && a[i] == b[i]
        invariant
            i <= a.len(),
            i <= b.len(),
            menor(a@, b@) == menor(a@.subrange(i as int, a@.len() as int), b@.subrange(
                i as int,
                b@.len() as int,
            )),
        decreases a.len() - i,
    {
        assert(a@.subrange(i as int, a@.len() as int).drop_first() =~= a@.subrange(
            i + 1,
            a@.len() as int,
        ));
        assert(b@.subrange(i as int, b@.len() as int).drop_first() =~= b@.subrange(
            i + 1,
            b@.len() as int,
        ));
        i = i + 1;
    }
    if i >= b.len() {
        false
    } else if i >= a.len() {
        true
    } else {
        a[i] < b[i]
    }
}

proof fn lema_inserir_em(s: Seq<(Seq<char>, Seq<char>)>, x: (Seq<char>, Seq<char>), j: int)
    requires
        0 <= j <= s.len(),
        forall|k: int| j <= k < s.len() ==> menor(x.0, #[trigger] s[k].0),
        j == 0 || !menor(x.0, s[j - 1].0),
    ensures
        inserir_ordenado(s, x) == s.take(j).push(x) + s.skip(j),
    decreases s.len(),
{
    if s.len() == 0 {
        assert(s.take(j).push(x) + s.skip(j) =~= seq![x]);
    } else if j == s.len() {
        assert(s.take(j).push(x) + s.skip(j) =~= s.push(x));
    } else {
        assert(menor(x.0, s[s.len() - 1].0));
        let w = s.drop_last();
        assert forall|k: int| j <= k < w.len() implies menor(x.0, #[trigger] w[k].0) by {
            assert(w[k] == s[k]);
        }
        lema_inserir_em(w, x, j);
        assert(s.take(j).push(x) + s.skip(j) =~= (w.take(j).push(x) + w.skip(j)).push(s.last()));
    }
}

/// Índices dos argumentos em ordem estável de nome.
fn ordem(args: &[(String, String)]) -> (r: Vec<usize>)
    ensures
        r@.len() == args@.len(),
        forall|i: int| 0 <= i < r@.len() ==> r@[i] < args@.len(),
        r@.map_values(|i: usize| (args@[i as int].0@, args@[i as int].1@)) == ordenado(
            vista_args(args@),
        ),
{
    let mut r: Vec<usize> = Vec::new();
    let mut n: usize = 0;
    let ghost va = vista_args(args@);
    while n < args.len()
        invariant
            n <= args.len(),
            va == vista_args(args@),
            r@.len() == n,
            forall|i: int| 0 <= i < r@.len() ==> r@[i] < n,
            r@.map_values(|i: usize| (args@[i as int].0@, args@[i as int].1@)) == ordenado(
                va.take(n as int),
            ),
        decreases args.len() - n,
    {
        let chave_n = caracteres_de(&args[n].0);
        let ghost f = |i: usize| (args@[i as int].0@, args@[i as int].1@);
        let ghost s = r@.map_values(f);
        let mut j: usize = r.len();
        while j > 0
            invariant
                j <= r@.len(),
                r@.len() == n,
                n < args.len(),
                forall|i: int| 0 <= i < r@.len() ==> r@[i] < n,
                s == r@.map_values(f),
                forall|x: usize| #[trigger] f(x) == (args@[x as int].0@, args@[x as int].1@),
                chave_n@ == args@[n as int].0@,
                forall|k: int| j <= k < s.len() ==> menor(chave_n@, #[trigger] s[k].0),
            ensures
                j <= r@.len(),
                forall|k: int| j <= k < s.len() ==> menor(chave_n@, #[trigger] s[k].0),
                j == 0 || !menor(chave_n@, s[j - 1].0),
            decreases j,
        {
            let cj = caracteres_de(&args[r[j - 1]].0);
            assert(s[j - 1] == f(r@[j - 1]));
            assert(s[j - 1].0 == cj@);
            if !menor_exec(chave_n.as_slice(), cj.as_slice()) {
                break;
            }
            j = j - 1;
        }
        proof {
            assert(va.take(n + 1).drop_last() =~= va.take(n as int));
            assert(va.take(n + 1).last() == f(n));
            lema_inserir_em(s, f(n), j as int);
        }
        r.insert(j, n);
        proof {
            assert(r@.map_values(f) =~= s.take(j as int).push(f(n)) + s.skip(j as int));
        }
        n = n + 1;
    }
    assert(va.take(args.len() as int) =~= va);
    r
}

proof fn lema_hash_args_passo(h: u64, a: Seq<(Seq<char>, Seq<char>)>, i: int)
    requires
        0 <= i < a.len(),
    ensures
        hash_args(h, a.subrange(i, a.len() as int)) == hash_args(
            misturado(misturado(h, utf8(a[i].0)), utf8(a[i].1)),
            a.subrange(i + 1, a.len() as int),
        ),
{
    assert(a.subrange(i, a.len() as int).drop_first() =~= a.subrange(i + 1, a.len() as int));
}

fn hex16_exec(h: u64) -> (r: String)
    ensures
        r@ == hex16(h),
{
    let mut v: Vec<char> = Vec::new();
    let mut i: u64 = 0;
    while i < 16
        invariant
            i <= 16,
            v@.len() == i,
            forall|k: int| 0 <= k < i ==> v@[k] == digito_hex((h >> ((60 - 4 * k) as u64)) & 15u64),
        decreases 16 - i,
    {
        let desloca: u64 = 60 - 4 * i;
        let d = (h >> desloca) & 15;
        assert(d < 16) by (bit_vector)
            requires
                d == (h >> desloca) & 15,
        ;
        let c = if d < 10 {
            ((d + 48) as u8) as char
        } else {
            ((d + 87) as u8) as char
        };
        v.push(c);
        i = i + 1;
    }
    assert(v@ =~= hex16(h));
    string_de(v.as_slice())
}

impl Diario {
    /// Um diário vazio, que grava em `caminho`.
    pub fn novo(caminho: &str) -> (d: Diario)
        ensures
            d.wf(),
            d.caminho() == caminho@,
            d@ == Map::<Seq<char>, EntradaS>::empty(),
    {
        let mut v = Vec::new();
        let s = crate::texto::copiar(caminho);
        Diario { caminho: s, entradas: v }
    }

    pub closed spec fn wf(&self) -> bool {
        chaves_unicas(self.entradas@)
    }

    pub closed spec fn caminho(&self) -> Seq<char> {
        self.caminho@
    }

    /// Onde o diário grava.
    pub fn caminho_do_arquivo(&self) -> (r: &String)
        ensures
            r@ == self.caminho(),
    {
        &self.caminho
    }

    /// Identidade de uma execução: ferramenta + argumentos.
    ///
    /// FNV-1a de 64 bits — não é criptográfico e não precisa ser. Os argumentos
    /// entram ordenados pelo nome (ordenação estável), para que a ordem deles não
    /// mude a identidade; cada campo termina com o byte `0xff`, para que
    /// `("ab","c")` e `("a","bc")` não colidam.
    pub fn chave(ferramenta: &str, args: &[(String, String)]) -> (r: String)
        ensures
            r@ == chave_de(ferramenta@, vista_args(args@)),
    {
        let h0 = misturar(FNV_BASE, ferramenta.as_bytes());
        let ord = ordem(args);
        let ghost a = ordenado(vista_args(args@));
        let mut h = h0;
        let mut i: usize = 0;
        assert(a.subrange(0, a.len() as int) =~= a);
        while i < ord.len()
            invariant
                i <= ord.len(),
                ord@.len() == args@.len(),
                forall|k: int| 0 <= k < ord@.len() ==> ord@[k] < args@.len(),
                a == ord@.map_values(|i: usize| (args@[i as int].0@, args@[i as int].1@)),
                a == ordenado(vista_args(args@)),
                hash_args(h0, a) == hash_args(h, a.subrange(i as int, a.len() as int)),
            decreases ord.len() - i,
        {
            let k = ord[i];
            proof {
                lema_hash_args_passo(h, a, i as int);
            }
            h = misturar(h, args[k].0.as_str().as_bytes());
            h = misturar(h, args[k].1.as_str().as_bytes());
            i = i + 1;
        }
        assert(a.subrange(a.len() as int, a.len() as int) =~= Seq::<(Seq<char>, Seq<char>)>::empty());
        hex16_exec(h)
    }

    fn posicao(&self, chave: &[char]) -> (r: Option<usize>)
        requires
            self.wf(),
        ensures
            match r {
                Some(i) => i < self.entradas@.len() && self.entradas@[i as int].0@ == chave@,
                None => forall|i: int|
                    0 <= i < self.entradas@.len() ==> self.entradas@[i].0@ != chave@,
            },
    {
        let mut i: usize = 0;
        while i < self.entradas.len()
            invariant
                i <= self.entradas@.len(),
                forall|k: int| 0 <= k < i ==> self.entradas@[k].0@ != chave@,
            decreases self.entradas.len() - i,
        {
            let k = caracteres_de(&self.entradas[i].0);
            if iguais(k.as_slice(), chave) {
                return Some(i);
            }
            i = i + 1;
        }
        None
    }

    /// O que fazer com esta execução.
    pub fn consultar(&self, chave: &str) -> (r: Veredito)
        requires
            self.wf(),
        ensures
            veredito_vale(r, entrada_em(self@, chave@)),
    {
        let c = caracteres(chave);
        proof {
            lema_mapa_busca(self.entradas@, chave@);
        }
        match self.posicao(c.as_slice()) {
            None => Veredito::Executar,
            Some(i) => {
                let e = &self.entradas[i].1;
                if e.concluida {
                    Veredito::Repetir(e.recibo.clone())
                } else if e.falhou {
                    Veredito::FalhouAntes(e.recibo.clone())
                } else {
                    Veredito::Incerto
                }
            },
        }
    }

    fn por(&mut self, chave: &str, e: Entrada)
        requires
            old(self).wf(),
        ensures
            final(self).wf(),
            final(self)@ == old(self)@.insert(chave@, e@),
            final(self).caminho() == old(self).caminho(),
    {
        let c = caracteres(chave);
        let k = crate::texto::copiar(chave);
        match self.posicao(c.as_slice()) {
            Some(i) => {
                proof {
                    lema_mapa_troca(self.entradas@, i as int, (k, e));
                }
                self.entradas.set(i, (k, e));
            },
            None => {
                let ghost antes = self.entradas@;
                self.entradas.push((k, e));
                proof {
                    assert(self.entradas@.drop_last() =~= antes);
                    assert forall|i: int, j: int|
                        0 <= i < j < self.entradas@.len() implies self.entradas@[i].0@
                        != self.entradas@[j].0@ by {
                        if j == self.entradas@.len() - 1 {
                            assert(antes[i].0@ != chave@);
                        }
                    }
                }
            },
        }
    }

    /// Marca que a ferramenta rodou e relatou erro. Chamar quando `executar` devolve
    /// `Err` — sem isto a entrada fica `Incerto` e a operação trava para sempre.
    pub fn falhar(&mut self, chave: &str, erro: &str)
        requires
            old(self).wf(),
        ensures
            final(self).wf(),
            final(self)@ == old(self)@.insert(chave@, (false, true, erro@)),
            final(self).caminho() == old(self).caminho(),
    {
        let e = Entrada { concluida: false, falhou: true, recibo: crate::texto::copiar(erro) };
        self.por(chave, e);
    }

    /// Marca o início. O programa grava e sincroniza a linha ANTES de executar.
    pub fn iniciar(&mut self, chave: &str)
        requires
            old(self).wf(),
        ensures
            final(self).wf(),
            final(self)@ == old(self)@.insert(chave@, (false, false, Seq::<char>::empty())),
            final(self).caminho() == old(self).caminho(),
    {
        let e = Entrada { concluida: false, falhou: false, recibo: String::new() };
        self.por(chave, e);
    }

    /// Marca a conclusão com o recibo. Chamar DEPOIS de executar.
    pub fn concluir(&mut self, chave: &str, recibo: &str)
        requires
            old(self).wf(),
        ensures
            final(self).wf(),
            final(self)@ == old(self)@.insert(chave@, (true, false, recibo@)),
            final(self).caminho() == old(self).caminho(),
    {
        let e = Entrada { concluida: true, falhou: false, recibo: crate::texto::copiar(recibo) };
        self.por(chave, e);
    }

    /// Quantas execuções o diário conhece.
    pub fn quantas(&self) -> (r: usize)
        requires
            self.wf(),
        ensures
            r == self@.len(),
    {
        proof {
            self.lema_tamanho();
        }
        self.entradas.len()
    }

    proof fn lema_tamanho(&self)
        requires
            self.wf(),
        ensures
            self@.len() == self.entradas@.len(),
            self@.dom().finite(),
    {
        lema_mapa_tamanho(self.entradas@);
    }
}

proof fn lema_mapa_tamanho(v: Seq<(String, Entrada)>)
    requires
        chaves_unicas(v),
    ensures
        mapa_de(v).dom().finite(),
        mapa_de(v).len() == v.len(),
    decreases v.len(),
{
    if v.len() > 0 {
        let w = v.drop_last();
        lema_mapa_tamanho(w);
        lema_mapa_busca(w, v.last().0@);
        assert(!mapa_de(w).contains_key(v.last().0@)) by {
            if mapa_de(w).contains_key(v.last().0@) {
                let i = choose|i: int| 0 <= i < w.len() && w[i].0@ == v.last().0@;
                assert(v[i].0@ == v[v.len() - 1].0@);
            }
        }
    }
}

fn campos_exec(l: &[char]) -> (r: Vec<Vec<char>>)
    ensures
        vistas(r@) == campos(l@),
{
    let mut feitos: Vec<Vec<char>> = Vec::new();
    let mut atual: Vec<char> = Vec::new();
    let mut i: usize = 0;
    assert(vistas(feitos@) =~= Seq::<Seq<char>>::empty());
    while i < l.len()
        invariant
            i <= l.len(),
            campos_de(l@, i as int, vistas(feitos@), atual@) == campos(l@),
        decreases l.len() - i,
    {
        if l[i] == '\t' && feitos.len() < 3 {
            let ghost antes = feitos@;
            let ghost a = atual@;
            feitos.push(atual);
            atual = Vec::new();
            assert(vistas(feitos@) =~= vistas(antes).push(a));
        } else {
            atual.push(l[i]);
        }
        i = i + 1;
    }
    let ghost antes = feitos@;
    let ghost a = atual@;
    feitos.push(atual);
    assert(vistas(feitos@) =~= vistas(antes).push(a));
    feitos
}

/// A linha que o registro ganha: estado, chave, quando e recibo escapado, separados
/// por tabulação e terminados por `\n`.
pub open spec fn linha_do_registro(
    estado: Seq<char>,
    chave: Seq<char>,
    quando: u64,
    recibo: Seq<char>,
) -> Seq<char> {
    estado + seq!['\t'] + chave + seq!['\t'] + decimal(quando) + seq!['\t'] + escapado(recibo)
        + seq!['\n']
}

/// A linha que o programa acrescenta ao arquivo (e sincroniza) antes de mudar o
/// estado em memória: `estado`, `chave`, `quando` (segundos desde a época) e o
/// recibo escapado.
pub fn linha(estado: &str, chave: &str, quando: u64, recibo: &str) -> (r: String)
    ensures
        r@ == linha_do_registro(estado@, chave@, quando, recibo@),
{
    let mut v = caracteres(estado);
    v.push('\t');
    let c = caracteres(chave);
    crate::texto::acrescentar_vec(&mut v, c.as_slice());
    v.push('\t');
    escrever_decimal(quando, &mut v);
    v.push('\t');
    let r = caracteres(recibo);
    let e = escapar_exec(r.as_slice());
    crate::texto::acrescentar_vec(&mut v, e.as_slice());
    v.push('\n');
    assert(v@ =~= linha_do_registro(estado@, chave@, quando, recibo@));
    string_de(v.as_slice())
}

impl Diario {
    /// Aplica uma linha do registro ao estado.
    fn registrar(&mut self, linha: &[char])
        requires
            old(self).wf(),
        ensures
            final(self).wf(),
            final(self).caminho() == old(self).caminho(),
            final(self)@ == aplicar_linha(old(self)@, linha@),
    {
        let c = campos_exec(linha);
        assert(c@.len() == campos(linha@).len());
        if c.len() < 2 {
            return ;
        }
        assert(c@[0]@ == campos(linha@)[0]);
        assert(c@[1]@ == campos(linha@)[1]);
        let chave = string_de(c[1].as_slice());
        let recibo = if c.len() >= 4 {
            assert(c@[3]@ == campos(linha@)[3]);
            string_de(c[3].as_slice())
        } else {
            String::new()
        };
        if igual_str(c[0].as_slice(), "iniciado") {
            let e = Entrada { concluida: false, falhou: false, recibo: String::new() };
            self.por(chave.as_str(), e);
        } else if igual_str(c[0].as_slice(), "falhou") {
            let rv = caracteres(recibo.as_str());
            let d = desescapar_exec(rv.as_slice());
            let e = Entrada { concluida: false, falhou: true, recibo: string_de(d.as_slice()) };
            self.por(chave.as_str(), e);
        } else if igual_str(c[0].as_slice(), "concluido") {
            let rv = caracteres(recibo.as_str());
            let d = desescapar_exec(rv.as_slice());
            let e = Entrada { concluida: true, falhou: false, recibo: string_de(d.as_slice()) };
            self.por(chave.as_str(), e);
        }
    }

    /// O diário que um registro gravado descreve: cada linha é aplicada em ordem,
    /// como a operação que a gravou: `iniciado` deixa a chave incerta, `falhou` e
    /// `concluido` guardam o texto já sem o escape. Linha truncada ou de estado
    /// desconhecido não muda nada.
    pub fn de_registro(caminho: &str, texto: &str) -> (d: Diario)
        ensures
            d.wf(),
            d.caminho() == caminho@,
            d@ == estado_do_registro(linhas(texto@)),
    {
        let t = caracteres(texto);
        let mut d = Diario::novo(caminho);
        let mut atual: Vec<char> = Vec::new();
        let mut i: usize = 0;
        proof {
            assert(t@.take(0) =~= Seq::<char>::empty());
            assert(sem_cr_todas(pedacos(t@.take(0)).drop_last()) =~= Seq::<Seq<char>>::empty());
        }
        while i < t.len()
            invariant
                i <= t.len(),
                d.wf(),
                d.caminho() == caminho@,
                pedacos(t@.take(i as int)).len() >= 1,
                atual@ == pedacos(t@.take(i as int)).last(),
                d@ == estado_do_registro(sem_cr_todas(pedacos(t@.take(i as int)).drop_last())),
            decreases t.len() - i,
        {
            let c = t[i];
            let ghost x = t@.take(i as int);
            let ghost p = pedacos(x);
            proof {
                assert(t@.take(i + 1).drop_last() =~= x);
                assert(t@.take(i + 1).last() == c);
            }
            if c == '\n' {
                let l = if atual.len() > 0 && atual[atual.len() - 1] == '\r' {
                    fatia(atual.as_slice(), 0, atual.len() - 1)
                } else {
                    fatia(atual.as_slice(), 0, atual.len())
                };
                assert(l@ == sem_cr(atual@)) by {
                    assert(atual@.subrange(0, atual@.len() as int) =~= atual@);
                }
                d.registrar(l.as_slice());
                atual = Vec::new();
                proof {
                    let q = pedacos(t@.take(i + 1));
                    assert(q == p.push(seq![]));
                    assert(q.drop_last() == p);
                    assert(sem_cr_todas(p) =~= sem_cr_todas(p.drop_last()).push(sem_cr(p.last())));
                    assert(sem_cr_todas(p).drop_last() =~= sem_cr_todas(p.drop_last()));
                }
            } else {
                atual.push(c);
                proof {
                    let q = pedacos(t@.take(i + 1));
                    assert(q.drop_last() =~= p.drop_last());
                }
            }
            i = i + 1;
        }
        proof {
            assert(t@.take(t.len() as int) =~= texto@);
        }
        if atual.len() > 0 {
            let ghost antes = sem_cr_todas(pedacos(texto@).drop_last());
            d.registrar(atual.as_slice());
            proof {
                assert(antes.push(atual@).drop_last() =~= antes);
            }
        }
        d
    }
}

/// As linhas de um texto, como `lines()` as devolve.
pub fn linhas_de_texto(texto: &str) -> (r: Vec<Vec<char>>)
    ensures
        vistas(r@) == linhas(texto@),
{
    let t = caracteres(texto);
    let mut r: Vec<Vec<char>> = Vec::new();
    let mut atual: Vec<char> = Vec::new();
    let mut i: usize = 0;
    proof {
        assert(t@.take(0) =~= Seq::<char>::empty());
        assert(sem_cr_todas(pedacos(t@.take(0)).drop_last()) =~= Seq::<Seq<char>>::empty());
        assert(vistas(r@) =~= Seq::<Seq<char>>::empty());
    }
    while i < t.len()
        invariant
            i <= t.len(),
            t@ == texto@,
            pedacos(t@.take(i as int)).len() >= 1,
            atual@ == pedacos(t@.take(i as int)).last(),
            vistas(r@) == sem_cr_todas(pedacos(t@.take(i as int)).drop_last()),
        decreases t.len() - i,
    {
        let c = t[i];
        let ghost x = t@.take(i as int);
        let ghost p = pedacos(x);
        proof {
            assert(t@.take(i + 1).drop_last() =~= x);
            assert(t@.take(i + 1).last() == c);
        }
        if c == '\n' {
            let l = if atual.len() > 0 && atual[atual.len() - 1] == '\r' {
                fatia(atual.as_slice(), 0, atual.len() - 1)
            } else {
                fatia(atual.as_slice(), 0, atual.len())
            };
            assert(l@ == sem_cr(atual@)) by {
                assert(atual@.subrange(0, atual@.len() as int) =~= atual@);
            }
            let ghost antes = r@;
            r.push(l);
            atual = Vec::new();
            proof {
                let q = pedacos(t@.take(i + 1));
                assert(q == p.push(seq![]));
                assert(q.drop_last() == p);
                assert(sem_cr_todas(p) =~= sem_cr_todas(p.drop_last()).push(sem_cr(p.last())));
                assert(vistas(r@) =~= vistas(antes).push(sem_cr(p.last())));
            }
        } else {
            atual.push(c);
            proof {
                let q = pedacos(t@.take(i + 1));
                assert(q.drop_last() =~= p.drop_last());
            }
        }
        i = i + 1;
    }
    proof {
        assert(t@.take(t.len() as int) =~= texto@);
    }
    if atual.len() > 0 {
        let ghost antes = r@;
        r.push(atual);
        proof {
            assert(vistas(r@) =~= vistas(antes).push(pedacos(texto@).last()));
        }
    }
    r
}

// ───────────────────────────── o que se grava é o que se relê

proof fn lema_pedacos_acrescentar(t: Seq<char>, l: Seq<char>)
    requires
        pedacos(t).last().len() == 0,
        !l.contains('\n'),
    ensures
        pedacos(t + l) == pedacos(t).drop_last().push(l),
    decreases l.len(),
{
    lema_pedacos_nao_vazio(t);
    if l.len() == 0 {
        assert(t + l =~= t);
        assert(l =~= pedacos(t).last());
        assert(pedacos(t).drop_last().push(l) =~= pedacos(t));
    } else {
        let m = l.drop_last();
        assert(!m.contains('\n')) by {
            if m.contains('\n') {
                let i = choose|i: int| 0 <= i < m.len() && m[i] == '\n';
                assert(l[i] == '\n');
            }
        }
        lema_pedacos_acrescentar(t, m);
        assert((t + l).drop_last() =~= t + m);
        assert((t + l).last() == l.last());
        assert(l.last() != '\n') by {
            assert(l[l.len() - 1] == l.last());
        }
        assert(m.push(l.last()) =~= l);
        assert(pedacos(t + l) =~= pedacos(t).drop_last().push(l));
    }
}

/// Acrescentar uma linha terminada por `\n` a um registro que termina em `\n` (ou
/// está vazio) acrescenta exatamente essa linha ao que `lines()` lê.
proof fn lema_linhas_acrescentar(t: Seq<char>, l: Seq<char>)
    requires
        t.len() == 0 || t.last() == '\n',
        !l.contains('\n'),
    ensures
        linhas(t + l.push('\n')) == linhas(t).push(sem_cr(l)),
{
    lema_pedacos_nao_vazio(t);
    assert(pedacos(t).last().len() == 0) by {
        if t.len() > 0 {
            lema_pedacos_nao_vazio(t.drop_last());
        }
    }
    lema_pedacos_acrescentar(t, l);
    let u = t + l.push('\n');
    assert(u.drop_last() =~= t + l);
    assert(u.last() == '\n');
    let p = pedacos(t);
    assert(pedacos(u) == p.drop_last().push(l).push(seq![]));
    assert(sem_cr_todas(p.drop_last().push(l)) =~= sem_cr_todas(p.drop_last()).push(sem_cr(l)));
    assert(pedacos(u).drop_last() =~= p.drop_last().push(l));
}

proof fn lema_campos_segmento(l: Seq<char>, i: int, j: int, f: Seq<Seq<char>>, a: Seq<char>)
    requires
        0 <= i <= j <= l.len(),
        forall|m: int| i <= m < j ==> l[m] != '\t',
    ensures
        campos_de(l, i, f, a) == campos_de(l, j, f, a + l.subrange(i, j)),
    decreases j - i,
{
    if i == j {
        assert(a + l.subrange(i, j) =~= a);
    } else {
        lema_campos_segmento(l, i + 1, j, f, a.push(l[i]));
        assert(a.push(l[i]) + l.subrange(i + 1, j) =~= a + l.subrange(i, j));
    }
}

proof fn lema_campos_resto(l: Seq<char>, i: int, f: Seq<Seq<char>>, a: Seq<char>)
    requires
        0 <= i <= l.len(),
        f.len() >= 3,
    ensures
        campos_de(l, i, f, a) == f.push(a + l.subrange(i, l.len() as int)),
    decreases l.len() - i,
{
    if i == l.len() {
        assert(a + l.subrange(i, l.len() as int) =~= a);
    } else {
        lema_campos_resto(l, i + 1, f, a.push(l[i]));
        assert(a.push(l[i]) + l.subrange(i + 1, l.len() as int) =~= a + l.subrange(
            i,
            l.len() as int,
        ));
    }
}

proof fn lema_campos_da_linha(e: Seq<char>, k: Seq<char>, q: Seq<char>, r: Seq<char>)
    requires
        !e.contains('\t'),
        !k.contains('\t'),
        !q.contains('\t'),
    ensures
        campos(e + seq!['\t'] + k + seq!['\t'] + q + seq!['\t'] + r) == seq![e, k, q, r],
{
    let l = e + seq!['\t'] + k + seq!['\t'] + q + seq!['\t'] + r;
    let i1 = e.len() as int;
    let i2 = i1 + 1 + k.len();
    let i3 = i2 + 1 + q.len();
    assert forall|m: int| 0 <= m < i1 implies l[m] != '\t' by {
        assert(l[m] == e[m]);
    }
    assert forall|m: int| i1 + 1 <= m < i2 implies l[m] != '\t' by {
        assert(l[m] == k[m - i1 - 1]);
    }
    assert forall|m: int| i2 + 1 <= m < i3 implies l[m] != '\t' by {
        assert(l[m] == q[m - i2 - 1]);
    }
    let vazio = Seq::<char>::empty();
    lema_campos_segmento(l, 0, i1, seq![], vazio);
    assert(vazio + l.subrange(0, i1) =~= e);
    assert(l[i1] == '\t');
    lema_campos_segmento(l, i1 + 1, i2, seq![e], vazio);
    assert(vazio + l.subrange(i1 + 1, i2) =~= k);
    assert(l[i2] == '\t');
    lema_campos_segmento(l, i2 + 1, i3, seq![e, k], vazio);
    assert(vazio + l.subrange(i2 + 1, i3) =~= q);
    assert(l[i3] == '\t');
    assert(seq![e, k].push(q) =~= seq![e, k, q]);
    lema_campos_resto(l, i3 + 1, seq![e, k, q], vazio);
    assert(vazio + l.subrange(i3 + 1, l.len() as int) =~= r);
    assert(seq![e].push(k) =~= seq![e, k]);
    assert(seq![e, k, q].push(r) =~= seq![e, k, q, r]);
    assert(Seq::<Seq<char>>::empty().push(e) =~= seq![e]);
}

proof fn lema_decimal_digitos(n: u64)
    ensures
        forall|i: int| 0 <= i < decimal(n).len() ==> '0' <= #[trigger] decimal(n)[i] <= '9',
    decreases n,
{
    if n >= 10 {
        lema_decimal_digitos(n / 10);
        lema_digito(n % 10);
        let d = decimal(n);
        assert forall|i: int| 0 <= i < d.len() implies '0' <= #[trigger] d[i] <= '9' by {
            if i < d.len() - 1 {
                assert(d[i] == decimal(n / 10)[i]);
            }
        }
    } else {
        lema_digito(n);
    }
}

proof fn lema_digito(d: u64)
    requires
        d < 10,
    ensures
        '0' <= digito(d) <= '9',
{
    assert(((d + 48) as u8) == d + 48);
    assert((((d + 48) as u8) as char) as int == d + 48);
}

proof fn lema_escapado_fim(r: Seq<char>)
    requires
        r.len() > 0,
        r.last() != '\r',
    ensures
        escapado(r).len() > 0,
        escapado(r).last() != '\r',
{
    let c = r.last();
    lema_escapado_soma(r.drop_last(), seq![c]);
    assert(r.drop_last() + seq![c] =~= r);
    assert(seq![c].drop_first() =~= Seq::<char>::empty());
    assert(escapado(Seq::<char>::empty()) == Seq::<char>::empty());
    assert(seq![c][0] == c);
    assert(escapado(seq![c]) =~= escape_de(c));
}

proof fn lema_linha_sem_quebra(a: Seq<char>, b: Seq<char>, c: Seq<char>, d: Seq<char>)
    requires
        !a.contains('\n'),
        !b.contains('\n'),
        !c.contains('\n'),
        !d.contains('\n'),
    ensures
        !(a + seq!['\t'] + b + seq!['\t'] + c + seq!['\t'] + d).contains('\n'),
{
    let l = a + seq!['\t'] + b + seq!['\t'] + c + seq!['\t'] + d;
    let i1 = a.len() as int;
    let i2 = i1 + 1 + b.len();
    let i3 = i2 + 1 + c.len();
    if l.contains('\n') {
        let m = choose|m: int| 0 <= m < l.len() && l[m] == '\n';
        if m < i1 {
            assert(l[m] == a[m]);
        } else if i1 < m < i2 {
            assert(l[m] == b[m - i1 - 1]);
        } else if i2 < m < i3 {
            assert(l[m] == c[m - i2 - 1]);
        } else if i3 < m {
            assert(l[m] == d[m - i3 - 1]);
        }
    }
}

/// O registro relido depois de acrescentar uma linha é o registro anterior com essa
/// linha aplicada, e a linha se lê de volta nos seus quatro campos.
proof fn lema_reabrir(t: Seq<char>, estado: Seq<char>, chave: Seq<char>, quando: u64, recibo: Seq<char>)
    requires
        t.len() == 0 || t.last() == '\n',
        !estado.contains('\t'),
        !estado.contains('\n'),
        !chave.contains('\t'),
        !chave.contains('\n'),
        recibo.len() == 0 || recibo.last() != '\r',
    ensures
        campos(linha_do_registro(estado, chave, quando, recibo).drop_last()) == seq![
            estado,
            chave,
            decimal(quando),
            escapado(recibo),
        ],
        estado_do_registro(linhas(t + linha_do_registro(estado, chave, quando, recibo)))
            == aplicar_linha(
            estado_do_registro(linhas(t)),
            linha_do_registro(estado, chave, quando, recibo).drop_last(),
        ),
{
    let q = decimal(quando);
    let e = escapado(recibo);
    let l = estado + seq!['\t'] + chave + seq!['\t'] + q + seq!['\t'] + e;
    assert(linha_do_registro(estado, chave, quando, recibo) =~= l.push('\n'));
    assert(l.push('\n').drop_last() =~= l);
    lema_decimal_digitos(quando);
    lei_escape_sem_tab_nem_quebra(recibo);
    assert(!q.contains('\t') && !q.contains('\n')) by {
        if q.contains('\t') || q.contains('\n') {
            let i = choose|i: int| 0 <= i < q.len() && (q[i] == '\t' || q[i] == '\n');
            assert('0' <= q[i] <= '9');
        }
    }
    lema_campos_da_linha(estado, chave, q, e);
    lema_linha_sem_quebra(estado, chave, q, e);
    assert(sem_cr(l) == l) by {
        if recibo.len() > 0 {
            lema_escapado_fim(recibo);
            assert(l.last() == e.last());
        } else {
            assert(e.len() == 0);
            assert(l.last() == '\t');
        }
    }
    lema_linhas_acrescentar(t, l);
    assert(t + linha_do_registro(estado, chave, quando, recibo) =~= t + l.push('\n'));
    let ls = linhas(t);
    assert(ls.push(l).drop_last() =~= ls);
}

/// Reabrir depois de gravar `concluido`: o recibo volta exatamente como era, o
/// mesmo estado que `concluir` deixa em memória.
pub proof fn lei_reabrir_depois_de_concluir(
    t: Seq<char>,
    chave: Seq<char>,
    quando: u64,
    recibo: Seq<char>,
)
    requires
        t.len() == 0 || t.last() == '\n',
        !chave.contains('\t'),
        !chave.contains('\n'),
        recibo.len() == 0 || recibo.last() != '\r',
    ensures
        estado_do_registro(linhas(t + linha_do_registro("concluido"@, chave, quando, recibo)))
            == estado_do_registro(linhas(t)).insert(chave, (true, false, recibo)),
{
    reveal_strlit("concluido");
    reveal_strlit("iniciado");
    reveal_strlit("falhou");
    lema_reabrir(t, "concluido"@, chave, quando, recibo);
    lei_escape_ida_e_volta(recibo);
}

/// Reabrir depois de gravar `falhou`: a chave fica como falha relatada, com o erro
/// exatamente como era — o mesmo estado que `falhar` deixa em memória.
pub proof fn lei_reabrir_depois_de_falhar(t: Seq<char>, chave: Seq<char>, quando: u64, erro: Seq<char>)
    requires
        t.len() == 0 || t.last() == '\n',
        !chave.contains('\t'),
        !chave.contains('\n'),
        erro.len() == 0 || erro.last() != '\r',
    ensures
        estado_do_registro(linhas(t + linha_do_registro("falhou"@, chave, quando, erro)))
            == estado_do_registro(linhas(t)).insert(chave, (false, true, erro)),
{
    reveal_strlit("concluido");
    reveal_strlit("iniciado");
    reveal_strlit("falhou");
    lema_reabrir(t, "falhou"@, chave, quando, erro);
    lei_escape_ida_e_volta(erro);
}

/// Reabrir depois de gravar `iniciado`: a chave fica incerta, conhecida ou não —
/// o mesmo estado que `iniciar` deixa em memória.
pub proof fn lei_reabrir_depois_de_iniciar(t: Seq<char>, chave: Seq<char>, quando: u64)
    requires
        t.len() == 0 || t.last() == '\n',
        !chave.contains('\t'),
        !chave.contains('\n'),
    ensures
        estado_do_registro(linhas(t + linha_do_registro("iniciado"@, chave, quando, seq![])))
            == estado_do_registro(linhas(t)).insert(chave, (false, false, seq![])),
{
    reveal_strlit("concluido");
    reveal_strlit("iniciado");
    reveal_strlit("falhou");
    lema_reabrir(t, "iniciado"@, chave, quando, seq![]);
}

// ───────────────────────────── o que a chave garante

proof fn lema_menor_irreflexivo(a: Seq<char>)
    ensures
        !menor(a, a),
    decreases a.len(),
{
    if a.len() > 0 {
        lema_menor_irreflexivo(a.drop_first());
    }
}

proof fn lema_menor_assimetrico(a: Seq<char>, b: Seq<char>)
    ensures
        !(menor(a, b) && menor(b, a)),
    decreases a.len(),
{
    if a.len() > 0 && b.len() > 0 && a[0] == b[0] {
        lema_menor_assimetrico(a.drop_first(), b.drop_first());
    }
}

proof fn lema_menor_transitivo(a: Seq<char>, b: Seq<char>, c: Seq<char>)
    requires
        menor(a, b),
        menor(b, c),
    ensures
        menor(a, c),
    decreases a.len(),
{
    if a.len() > 0 && b.len() > 0 && c.len() > 0 && a[0] == b[0] && b[0] == c[0] {
        lema_menor_transitivo(a.drop_first(), b.drop_first(), c.drop_first());
    }
}

proof fn lema_menor_total(a: Seq<char>, b: Seq<char>)
    requires
        a != b,
    ensures
        menor(a, b) || menor(b, a),
    decreases a.len(),
{
    if a.len() > 0 && b.len() > 0 && a[0] == b[0] {
        if a.drop_first() == b.drop_first() {
            assert(a =~= seq![a[0]] + a.drop_first());
            assert(b =~= seq![b[0]] + b.drop_first());
        }
        lema_menor_total(a.drop_first(), b.drop_first());
    } else if a.len() == 0 && b.len() == 0 {
        assert(a =~= b);
    }
}

/// Os argumentos em ordem estritamente crescente de nome.
pub open spec fn crescente(s: Seq<(Seq<char>, Seq<char>)>) -> bool {
    forall|i: int, j: int| 0 <= i < j < s.len() ==> menor(#[trigger] s[i].0, #[trigger] s[j].0)
}

/// Nenhum nome de argumento se repete.
pub open spec fn nomes_unicos(s: Seq<(Seq<char>, Seq<char>)>) -> bool {
    forall|i: int, j: int| 0 <= i < j < s.len() ==> #[trigger] s[i].0 != #[trigger] s[j].0
}

proof fn lema_inserir(s: Seq<(Seq<char>, Seq<char>)>, x: (Seq<char>, Seq<char>))
    requires
        crescente(s),
        forall|i: int| 0 <= i < s.len() ==> #[trigger] s[i].0 != x.0,
    ensures
        crescente(inserir_ordenado(s, x)),
        inserir_ordenado(s, x).to_multiset() == s.to_multiset().insert(x),
        inserir_ordenado(s, x).len() == s.len() + 1,
        forall|y: (Seq<char>, Seq<char>)| #[trigger] inserir_ordenado(s, x).contains(y) ==> s.contains(y) || y == x,
    decreases s.len(),
{
    broadcast use vstd::seq_lib::group_to_multiset_ensures;
    if s.len() == 0 {
        assert(seq![x] =~= Seq::<(Seq<char>, Seq<char>)>::empty().push(x));
        assert(Seq::<(Seq<char>, Seq<char>)>::empty().to_multiset() =~= vstd::multiset::Multiset::empty());
    } else if menor(x.0, s.last().0) {
        let w = s.drop_last();
        assert(crescente(w)) by {
            assert forall|i: int, j: int| 0 <= i < j < w.len() implies menor(#[trigger] w[i].0, #[trigger] w[j].0) by {
                assert(s[i] == w[i] && s[j] == w[j]);
            }
        }
        assert forall|i: int| 0 <= i < w.len() implies #[trigger] w[i].0 != x.0 by {
            assert(s[i] == w[i]);
        }
        lema_inserir(w, x);
        let r = inserir_ordenado(w, x);
        let u = r.push(s.last());
        assert(u == inserir_ordenado(s, x));
        assert(s =~= w.push(s.last()));
        assert forall|i: int, j: int| 0 <= i < j < u.len() implies menor(#[trigger] u[i].0, #[trigger] u[j].0) by {
            if j == u.len() - 1 {
                assert(u[i] == r[i]);
                assert(r.contains(r[i]));
                if r[i] == x {
                } else {
                    assert(w.contains(r[i]));
                    let k = choose|k: int| 0 <= k < w.len() && w[k] == r[i];
                    assert(menor(s[k].0, s[s.len() - 1].0));
                }
            } else {
                assert(u[i] == r[i] && u[j] == r[j]);
            }
        }
        assert forall|y: (Seq<char>, Seq<char>)| #[trigger] u.contains(y) implies s.contains(y) || y == x by {
            let k = choose|k: int| 0 <= k < u.len() && u[k] == y;
            if k < r.len() {
                assert(r[k] == y);
                assert(r.contains(y));
                if y != x {
                    let m = choose|m: int| 0 <= m < w.len() && w[m] == y;
                    assert(s[m] == y);
                }
            } else {
                assert(s[s.len() - 1] == y);
            }
        }
        assert(u.to_multiset() =~= s.to_multiset().insert(x));
    } else {
        let u = s.push(x);
        assert(u == inserir_ordenado(s, x));
        lema_menor_total(x.0, s.last().0);
        assert forall|i: int, j: int| 0 <= i < j < u.len() implies menor(#[trigger] u[i].0, #[trigger] u[j].0) by {
            if j == u.len() - 1 {
                assert(u[i] == s[i]);
                if i < s.len() - 1 {
                    lema_menor_transitivo(s[i].0, s[s.len() - 1].0, x.0);
                }
            } else {
                assert(u[i] == s[i] && u[j] == s[j]);
            }
        }
        assert forall|y: (Seq<char>, Seq<char>)| #[trigger] u.contains(y) implies s.contains(y) || y == x by {
            let k = choose|k: int| 0 <= k < u.len() && u[k] == y;
            if k < s.len() {
                assert(s[k] == y);
            }
        }
    }
}

proof fn lema_ordenado(s: Seq<(Seq<char>, Seq<char>)>)
    requires
        nomes_unicos(s),
    ensures
        crescente(ordenado(s)),
        ordenado(s).to_multiset() == s.to_multiset(),
        ordenado(s).len() == s.len(),
        forall|y: (Seq<char>, Seq<char>)| #[trigger] ordenado(s).contains(y) ==> s.contains(y),
    decreases s.len(),
{
    broadcast use vstd::seq_lib::group_to_multiset_ensures;
    if s.len() == 0 {
        assert(ordenado(s) =~= s);
    } else {
        let w = s.drop_last();
        assert(nomes_unicos(w)) by {
            assert forall|i: int, j: int| 0 <= i < j < w.len() implies #[trigger] w[i].0 != #[trigger] w[j].0 by {
                assert(s[i] == w[i] && s[j] == w[j]);
            }
        }
        lema_ordenado(w);
        let o = ordenado(w);
        assert forall|i: int| 0 <= i < o.len() implies #[trigger] o[i].0 != s.last().0 by {
            assert(o.contains(o[i]));
            let k = choose|k: int| 0 <= k < w.len() && w[k] == o[i];
            assert(s[k] == w[k]);
        }
        lema_inserir(o, s.last());
        assert(s =~= w.push(s.last()));
        assert forall|y: (Seq<char>, Seq<char>)| #[trigger] ordenado(s).contains(y) implies s.contains(y) by {
            if y != s.last() {
                assert(o.contains(y));
                let k = choose|k: int| 0 <= k < w.len() && w[k] == y;
                assert(s[k] == y);
            } else {
                assert(s[s.len() - 1] == y);
            }
        }
    }
}

/// Duas listas em ordem estritamente crescente de nome com os mesmos elementos
/// são a mesma lista.
proof fn lema_crescente_unica(a: Seq<(Seq<char>, Seq<char>)>, b: Seq<(Seq<char>, Seq<char>)>)
    requires
        crescente(a),
        crescente(b),
        a.to_multiset() == b.to_multiset(),
    ensures
        a == b,
    decreases a.len(),
{
    broadcast use vstd::seq_lib::group_to_multiset_ensures;
    vstd::seq_lib::to_multiset_len(a);
    vstd::seq_lib::to_multiset_len(b);
    assert(a.len() == b.len());
    if a.len() > 0 {
        let x = a.last();
        let y = b.last();
        assert(a.contains(x));
        assert(b.to_multiset().count(x) > 0);
        assert(b.contains(x));
        assert(a.to_multiset().count(y) > 0);
        assert(a.contains(y));
        let i = choose|i: int| 0 <= i < b.len() && b[i] == x;
        let j = choose|j: int| 0 <= j < a.len() && a[j] == y;
        if x != y {
            if i < b.len() - 1 {
                assert(menor(x.0, y.0));
            } else {
                assert(b[i] == y);
            }
            if j < a.len() - 1 {
                assert(menor(y.0, x.0));
            } else {
                assert(a[j] == x);
            }
            lema_menor_assimetrico(x.0, y.0);
        }
        let aw = a.drop_last();
        let bw = b.drop_last();
        assert(a =~= aw.push(x));
        assert(b =~= bw.push(y));
        assert(aw.to_multiset() =~= a.to_multiset().remove(x));
        assert(bw.to_multiset() =~= b.to_multiset().remove(y));
        assert(crescente(aw)) by {
            assert forall|p: int, q: int| 0 <= p < q < aw.len() implies menor(#[trigger] aw[p].0, #[trigger] aw[q].0) by {
                assert(a[p] == aw[p] && a[q] == aw[q]);
            }
        }
        assert(crescente(bw)) by {
            assert forall|p: int, q: int| 0 <= p < q < bw.len() implies menor(#[trigger] bw[p].0, #[trigger] bw[q].0) by {
                assert(b[p] == bw[p] && b[q] == bw[q]);
            }
        }
        lema_crescente_unica(aw, bw);
    }
}

/// A chave não depende da ordem dos argumentos: com nomes de argumento distintos,
/// qualquer permutação deles dá a mesma chave. E ela tem sempre 16 dígitos
/// hexadecimais minúsculos.
pub proof fn lei_a_chave_nao_depende_da_ordem(
    ferramenta: Seq<char>,
    args: Seq<(Seq<char>, Seq<char>)>,
    outra: Seq<(Seq<char>, Seq<char>)>,
)
    requires
        nomes_unicos(args),
        outra.to_multiset() == args.to_multiset(),
    ensures
        chave_de(ferramenta, outra) == chave_de(ferramenta, args),
        chave_de(ferramenta, args).len() == 16,
        forall|i: int| 0 <= i < 16 ==> {
            let c = #[trigger] chave_de(ferramenta, args)[i];
            ('0' <= c && c <= '9') || ('a' <= c && c <= 'f')
        },
{
    broadcast use vstd::seq_lib::group_to_multiset_ensures;
    assert(nomes_unicos(outra)) by {
        assert forall|i: int, j: int| 0 <= i < j < outra.len() implies #[trigger] outra[i].0 != #[trigger] outra[j].0 by {
            if outra[i].0 == outra[j].0 {
                assert(outra.contains(outra[i]) && outra.contains(outra[j]));
                assert(args.to_multiset().count(outra[i]) > 0);
                assert(args.to_multiset().count(outra[j]) > 0);
                let p = choose|p: int| 0 <= p < args.len() && args[p] == outra[i];
                let q = choose|q: int| 0 <= q < args.len() && args[q] == outra[j];
                if p == q {
                    // o mesmo par duas vezes em `outra`: duas cópias em `args`
                    lema_sem_repeticao(args, outra, i, j);
                } else if p < q {
                    assert(args[p].0 != args[q].0);
                } else {
                    assert(args[q].0 != args[p].0);
                }
            }
        }
    }
    lema_ordenado(args);
    lema_ordenado(outra);
    lema_crescente_unica(ordenado(args), ordenado(outra));
    let h = hash_args(misturado(FNV_BASE, utf8(ferramenta)), ordenado(args));
    assert forall|i: int| 0 <= i < 16 implies {
        let c = #[trigger] chave_de(ferramenta, args)[i];
        ('0' <= c && c <= '9') || ('a' <= c && c <= 'f')
    } by {
        let x: u64 = h >> ((60 - 4 * i) as u64);
        assert(x & 15u64 < 16u64) by (bit_vector);
        lema_digito_hex(x & 15u64);
    }
}

proof fn lema_digito_hex(v: u64)
    requires
        v < 16,
    ensures
        ('0' <= digito_hex(v) && digito_hex(v) <= '9') || ('a' <= digito_hex(v) && digito_hex(v) <= 'f'),
{
    if v < 10 {
        assert(((v + 48) as u8) == v + 48);
        assert((((v + 48) as u8) as char) as int == v + 48);
    } else {
        assert(((v + 87) as u8) == v + 87);
        assert((((v + 87) as u8) as char) as int == v + 87);
    }
}

/// Se `outra` tem os mesmos elementos que `args` e `args` não repete nome, então
/// um mesmo par não aparece duas vezes em `outra`.
proof fn lema_sem_repeticao(
    args: Seq<(Seq<char>, Seq<char>)>,
    outra: Seq<(Seq<char>, Seq<char>)>,
    i: int,
    j: int,
)
    requires
        nomes_unicos(args),
        outra.to_multiset() == args.to_multiset(),
        0 <= i < j < outra.len(),
    ensures
        outra[i] != outra[j],
{
    broadcast use vstd::seq_lib::group_to_multiset_ensures;
    let x = outra[i];
    if outra[i] != outra[j] {
        return;
    }
    assert(args.no_duplicates()) by {
        assert forall|p: int, q: int| 0 <= p < args.len() && 0 <= q < args.len() && p != q implies args[p] != args[q] by {
            if p < q {
                assert(args[p].0 != args[q].0);
            } else {
                assert(args[q].0 != args[p].0);
            }
        }
    }
    args.lemma_multiset_has_no_duplicates();
    assert(args.to_multiset().count(x) <= 1);
    let o2 = outra.remove(j);
    assert(o2.to_multiset() =~= outra.to_multiset().remove(x));
    assert(o2[i] == x);
    assert(o2.contains(x));
    assert(o2.to_multiset().count(x) > 0);
}

// ───────────────────────────── sequências de operações

/// Uma operação do diário, como ela é gravada: a chave, o momento e, conforme o
/// caso, o recibo ou o erro.
pub enum OperacaoS {
    Iniciar(Seq<char>, u64),
    Concluir(Seq<char>, u64, Seq<char>),
    Falhar(Seq<char>, u64, Seq<char>),
}

pub open spec fn chave_da(op: OperacaoS) -> Seq<char> {
    match op {
        OperacaoS::Iniciar(k, _) => k,
        OperacaoS::Concluir(k, _, _) => k,
        OperacaoS::Falhar(k, _, _) => k,
    }
}

/// A entrada que a operação deixa em memória (`iniciar`, `concluir`, `falhar`).
pub open spec fn entrada_da(op: OperacaoS) -> EntradaS {
    match op {
        OperacaoS::Iniciar(_, _) => (false, false, seq![]),
        OperacaoS::Concluir(_, _, r) => (true, false, r),
        OperacaoS::Falhar(_, _, e) => (false, true, e),
    }
}

/// A linha que o programa grava antes da operação.
pub open spec fn linha_da(op: OperacaoS) -> Seq<char> {
    match op {
        OperacaoS::Iniciar(k, q) => linha_do_registro("iniciado"@, k, q, seq![]),
        OperacaoS::Concluir(k, q, r) => linha_do_registro("concluido"@, k, q, r),
        OperacaoS::Falhar(k, q, e) => linha_do_registro("falhou"@, k, q, e),
    }
}

/// A chave cabe numa linha e o texto não termina em `\r` (que `lines()` comeria).
pub open spec fn gravavel(op: OperacaoS) -> bool {
    let k = chave_da(op);
    let t = entrada_da(op).2;
    &&& !k.contains('\t')
    &&& !k.contains('\n')
    &&& (t.len() == 0 || t.last() != '\r')
}

/// O estado em memória depois das operações, a partir do diário vazio.
pub open spec fn em_memoria(ops: Seq<OperacaoS>) -> Map<Seq<char>, EntradaS>
    decreases ops.len(),
{
    if ops.len() == 0 {
        Map::empty()
    } else {
        em_memoria(ops.drop_last()).insert(chave_da(ops.last()), entrada_da(ops.last()))
    }
}

/// O arquivo que as operações deixam, a partir do arquivo vazio.
pub open spec fn registro_de(ops: Seq<OperacaoS>) -> Seq<char>
    decreases ops.len(),
{
    if ops.len() == 0 {
        seq![]
    } else {
        registro_de(ops.drop_last()) + linha_da(ops.last())
    }
}

/// A última operação sobre a chave `k`.
pub open spec fn ultima_em(ops: Seq<OperacaoS>, k: Seq<char>) -> Option<OperacaoS>
    decreases ops.len(),
{
    if ops.len() == 0 {
        None
    } else if chave_da(ops.last()) == k {
        Some(ops.last())
    } else {
        ultima_em(ops.drop_last(), k)
    }
}

proof fn lema_registro_termina(ops: Seq<OperacaoS>)
    ensures
        registro_de(ops).len() == 0 || registro_de(ops).last() == '\n',
{
    if ops.len() > 0 {
        let l = linha_da(ops.last());
        assert(l.len() > 0 && l.last() == '\n');
        assert(registro_de(ops).last() == l.last());
    }
}

/// O estado está no arquivo: reabrir o diário que uma sequência qualquer de
/// operações gravou dá exatamente o estado que elas deixaram em memória — recibos
/// e erros com tabulação, quebra de linha ou contrabarra inclusive.
pub proof fn lei_reabrir_da_o_estado_da_memoria(ops: Seq<OperacaoS>)
    requires
        forall|i: int| 0 <= i < ops.len() ==> gravavel(#[trigger] ops[i]),
    ensures
        estado_do_registro(linhas(registro_de(ops))) == em_memoria(ops),
    decreases ops.len(),
{
    if ops.len() == 0 {
        reveal_with_fuel(pedacos, 1);
        assert(linhas(Seq::<char>::empty()) =~= Seq::<Seq<char>>::empty());
    } else {
        let w = ops.drop_last();
        assert forall|i: int| 0 <= i < w.len() implies gravavel(#[trigger] w[i]) by {
            assert(w[i] == ops[i]);
        }
        lei_reabrir_da_o_estado_da_memoria(w);
        lema_registro_termina(w);
        let t = registro_de(w);
        let op = ops.last();
        assert(gravavel(ops[ops.len() - 1]));
        match op {
            OperacaoS::Iniciar(k, q) => {
                lei_reabrir_depois_de_iniciar(t, k, q);
            },
            OperacaoS::Concluir(k, q, r) => {
                lei_reabrir_depois_de_concluir(t, k, q, r);
            },
            OperacaoS::Falhar(k, q, e) => {
                lei_reabrir_depois_de_falhar(t, k, q, e);
            },
        }
    }
}

/// O veredito de uma chave é o da última operação sobre ela: nenhuma, `Executar`;
/// `iniciar`, `Incerto`; `concluir`, `Repetir` com o recibo; `falhar`,
/// `FalhouAntes` com o erro.
pub proof fn lei_veredito_e_o_da_ultima_operacao(ops: Seq<OperacaoS>, k: Seq<char>)
    ensures
        em_memoria(ops).contains_key(k) <==> ultima_em(ops, k) is Some,
        ultima_em(ops, k) matches Some(op) ==> em_memoria(ops)[k] == entrada_da(op),
        forall|v: Veredito| #[trigger] veredito_vale(v, entrada_em(em_memoria(ops), k)) ==> match ultima_em(ops, k) {
            None => v is Executar,
            Some(OperacaoS::Iniciar(_, _)) => v is Incerto,
            Some(OperacaoS::Concluir(_, _, r)) => v matches Veredito::Repetir(x) && x@ == r,
            Some(OperacaoS::Falhar(_, _, e)) => v matches Veredito::FalhouAntes(x) && x@ == e,
        },
    decreases ops.len(),
{
    if ops.len() > 0 {
        lei_veredito_e_o_da_ultima_operacao(ops.drop_last(), k);
    }
}

impl View for Diario {
    type V = Map<Seq<char>, EntradaS>;

    closed spec fn view(&self) -> Map<Seq<char>, EntradaS> {
        mapa_de(self.entradas@)
    }
}

} // verus!
