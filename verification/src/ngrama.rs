//! O n-grama de bytes que dá ao patcher a surpresa de cada posição.
//!
//! A tabela guarda, por casela, a entropia do byte seguinte a um contexto de
//! `ordem` bytes; o contexto vira casela por FNV-1a. A entropia é ponto flutuante e
//! é calculada por quem chama; aqui ficam as partes inteiras: o espalhamento, a
//! casela que cada posição consulta, a contagem de contextos distintos e o arquivo,
//! onde a tabela entra e sai como padrões de bits (`u32`).
//!
//! ```text
//! [4]      TKNG
//! [4]      a ordem, u32 little-endian
//! [8]      quantas caselas, u64 little-endian (potência de dois)
//! [4 × n]  as entropias, o padrão de bits de cada f32, little-endian
//! ```
use vstd::prelude::*;
use vstd::wrapping::u64_specs::wrapping_mul;
use std::collections::{HashMap, HashSet};
use crate::cerebro::{
    escrever_palavras, lema_palavras_le_tam, lema_palavras_no_meio, lema_u32_no_meio, ler_palavras,
    palavras_em, palavras_le, por_u32, u32_em, u32_na, u32le,
};
use crate::texto::{acrescentar_vec, copiar, decimal, escrever_decimal, string_de};

verus! {

broadcast use vstd::std_specs::hash::group_hash_axioms;

/// Quantas observações um contexto precisa antes de sua entropia valer.
pub const MINIMO_OBS: u32 = 8;

/// O ponto de partida do FNV-1a de 64 bits.
pub const BASE_FNV: u64 = 0xcbf2_9ce4_8422_2325;

/// O primo do FNV-1a de 64 bits.
pub const PRIMO_FNV: u64 = 0x100_0000_01b3;

/// FNV-1a sobre os bytes do contexto.
pub open spec fn fnv(ctx: Seq<u8>) -> u64
    decreases ctx.len(),
{
    if ctx.len() == 0 {
        BASE_FNV
    } else {
        wrapping_mul(fnv(ctx.drop_last()) ^ (ctx.last() as u64), PRIMO_FNV)
    }
}

/// O contexto espalhado: o FNV-1a com a metade de cima dobrada sobre a de baixo.
pub open spec fn espalhado(ctx: Seq<u8>) -> usize {
    let h = fnv(ctx);
    (h ^ (h >> 32u64)) as usize
}

/// Espalha `b[ini..fim]`.
fn espalhar_trecho(b: &[u8], ini: usize, fim: usize) -> (r: usize)
    requires
        ini <= fim <= b@.len(),
    ensures
        r == espalhado(b@.subrange(ini as int, fim as int)),
{
    let mut h: u64 = BASE_FNV;
    let mut i = ini;
    assert(b@.subrange(ini as int, ini as int) =~= Seq::<u8>::empty());
    while i < fim
        invariant
            ini <= i <= fim,
            fim <= b@.len(),
            h == fnv(b@.subrange(ini as int, i as int)),
        decreases fim - i,
    {
        assert(b@.subrange(ini as int, i + 1).drop_last() =~= b@.subrange(ini as int, i as int));
        h = (h ^ (b[i] as u64)).wrapping_mul(PRIMO_FNV);
        i = i + 1;
    }
    (h ^ (h >> 32)) as usize
}

/// O espalhamento de um contexto.
pub fn embaralhar(ctx: &[u8]) -> (r: usize)
    ensures
        r == espalhado(ctx@),
{
    assert(ctx@.subrange(0, ctx@.len() as int) =~= ctx@);
    espalhar_trecho(ctx, 0, ctx.len())
}

/// A casela que a posição `i` consulta: nenhuma enquanto o contexto é mais curto
/// que a ordem (a entropia ali é a máxima); senão a dos `ordem` bytes que terminam
/// em `i`, cortada pela máscara.
pub fn casela(ordem: usize, mascara: usize, bytes: &[u8], i: usize) -> (r: Option<usize>)
    requires
        i < bytes@.len(),
    ensures
        i + 1 < ordem ==> r is None,
        i + 1 >= ordem ==> r == Some(espalhado(bytes@.subrange(i + 1 - ordem, i + 1)) & mascara),
{
    let _n = bytes.len();
    if i + 1 < ordem {
        None
    } else {
        Some(espalhar_trecho(bytes, i + 1 - ordem, i + 1) & mascara)
    }
}

/// O espalhamento de cada contexto de `ordem` bytes seguido de mais um byte.
pub open spec fn contextos(corpus: Seq<u8>, ordem: nat) -> Seq<usize> {
    if corpus.len() > ordem {
        Seq::new((corpus.len() - ordem) as nat, |k: int| espalhado(corpus.subrange(k, k + ordem)))
    } else {
        Seq::empty()
    }
}

/// Quantos contextos distintos (depois de espalhados) o corpus rende nesta ordem.
pub fn contextos_distintos(corpus: &[u8], ordem: usize) -> (r: usize)
    requires
        ordem > 0 || corpus@.len() == 0,
    ensures
        r == contextos(corpus@, ordem as nat).to_set().len(),
{
    let mut vistos: HashSet<usize> = HashSet::new();
    let n = corpus.len();
    let ghost todos = contextos(corpus@, ordem as nat);
    if n > ordem {
        let mut k: usize = 0;
        while k < n - ordem
            invariant
                n == corpus@.len(),
                n > ordem,
                k <= n - ordem,
                todos == contextos(corpus@, ordem as nat),
                vistos@ == todos.take(k as int).to_set(),
            decreases n - ordem - k,
        {
            let h = espalhar_trecho(corpus, k, k + ordem);
            vistos.insert(h);
            proof {
                let t0 = todos.take(k as int);
                let t1 = todos.take(k + 1);
                assert(t1 =~= t0.push(h));
                assert forall|x: usize| vistos@.contains(x) implies t1.to_set().contains(x) by {
                    if x == h {
                        assert(t1[k as int] == h);
                    } else {
                        let j = choose|j: int| 0 <= j < t0.len() && #[trigger] t0[j] == x;
                        assert(t1[j] == x);
                    }
                }
                assert forall|x: usize| t1.to_set().contains(x) implies vistos@.contains(x) by {
                    let j = choose|j: int| 0 <= j < t1.len() && #[trigger] t1[j] == x;
                    if j < k {
                        assert(t0[j] == x);
                    }
                }
                assert(vistos@ =~= t1.to_set());
            }
            k = k + 1;
        }
        assert(todos.take((n - ordem) as int) =~= todos);
    } else {
        assert(todos =~= Seq::<usize>::empty());
        assert(vistos@ =~= todos.to_set());
    }
    vistos.len()
}

// ───────────────────────────── a contagem

/// Quantas vezes o byte `b` vem depois de um contexto espalhado em `h`, entre os
/// `k` primeiros contextos do corpus.
pub open spec fn contagem(corpus: Seq<u8>, ordem: nat, k: int, h: usize, b: u8) -> nat
    decreases k,
{
    if k <= 0 {
        0
    } else {
        contagem(corpus, ordem, k - 1, h, b) + if contextos(corpus, ordem)[k - 1] == h && corpus[k - 1
            + ordem] == b {
            1nat
        } else {
            0nat
        }
    }
}

/// O total que uma lista de sucessores dá ao byte `x`.
pub open spec fn conta(s: Seq<(u8, u32)>, x: u8) -> nat
    decreases s.len(),
{
    if s.len() == 0 {
        0
    } else {
        conta(s.drop_last(), x) + if s.last().0 == x {
            s.last().1 as nat
        } else {
            0nat
        }
    }
}

/// Cada byte aparece uma vez só na lista, e com contagem positiva.
pub open spec fn bem_formada(s: Seq<(u8, u32)>) -> bool {
    &&& forall|i: int, j: int| 0 <= i < j < s.len() ==> #[trigger] s[i].0 != #[trigger] s[j].0
    &&& forall|i: int| 0 <= i < s.len() ==> #[trigger] s[i].1 > 0
}

/// A contagem dos `k` primeiros contextos: há uma lista para cada contexto visto, e
/// só para eles; cada lista é bem formada e dá a cada byte quantas vezes ele veio
/// depois daquele contexto.
pub open spec fn contado(m: Map<usize, Vec<(u8, u32)>>, corpus: Seq<u8>, ordem: nat, k: int) -> bool {
    &&& forall|h: usize| #[trigger] m.contains_key(h) <==> exists|j: int| 0 <= j < k && #[trigger] contextos(corpus, ordem)[j] == h
    &&& forall|h: usize| #[trigger] m.contains_key(h) ==> bem_formada(m[h]@)
    &&& forall|h: usize, x: u8| #[trigger] m.contains_key(h) ==> conta(m[h]@, x) == #[trigger] contagem(corpus, ordem, k, h, x)
}

proof fn lema_conta_push(s: Seq<(u8, u32)>, p: (u8, u32), x: u8)
    ensures
        conta(s.push(p), x) == conta(s, x) + if p.0 == x { p.1 as nat } else { 0nat },
{
    assert(s.push(p).drop_last() =~= s);
}

proof fn lema_conta_update(s: Seq<(u8, u32)>, j: int, c: u32, x: u8)
    requires
        0 <= j < s.len(),
        c == s[j].1 + 1,
    ensures
        conta(s.update(j, (s[j].0, c)), x) == conta(s, x) + if s[j].0 == x { 1nat } else { 0nat },
    decreases s.len(),
{
    let t = s.update(j, (s[j].0, c));
    if j == s.len() - 1 {
        assert(t.drop_last() =~= s.drop_last());
    } else {
        assert(t.drop_last() =~= s.drop_last().update(j, (s[j].0, c)));
        lema_conta_update(s.drop_last(), j, c, x);
    }
}

proof fn lema_conta_em(s: Seq<(u8, u32)>, j: int)
    requires
        bem_formada(s),
        0 <= j < s.len(),
    ensures
        conta(s, s[j].0) == s[j].1,
    decreases s.len(),
{
    let x = s[j].0;
    if j == s.len() - 1 {
        lema_conta_ausente(s.drop_last(), x);
    } else {
        assert(s.last().0 != x);
        lema_conta_em(s.drop_last(), j);
    }
}

proof fn lema_conta_ausente(s: Seq<(u8, u32)>, x: u8)
    requires
        forall|i: int| 0 <= i < s.len() ==> #[trigger] s[i].0 != x,
    ensures
        conta(s, x) == 0,
    decreases s.len(),
{
    if s.len() > 0 {
        lema_conta_ausente(s.drop_last(), x);
    }
}

proof fn lema_contagem_cresce(corpus: Seq<u8>, ordem: nat, k1: int, k2: int, h: usize, b: u8)
    requires
        k1 <= k2,
    ensures
        contagem(corpus, ordem, k1, h, b) <= contagem(corpus, ordem, k2, h, b),
    decreases k2 - k1,
{
    if k1 < k2 {
        lema_contagem_cresce(corpus, ordem, k1, k2 - 1, h, b);
    }
}

/// Soma uma ocorrência de `b` à lista de sucessores.
fn somar(v: &mut Vec<(u8, u32)>, b: u8)
    requires
        bem_formada(old(v)@),
        conta(old(v)@, b) < u32::MAX,
    ensures
        bem_formada(final(v)@),
        forall|x: u8| #[trigger] conta(final(v)@, x) == conta(old(v)@, x) + if x == b { 1nat } else { 0nat },
{
    let n = v.len();
    let mut j: usize = 0;
    while j < n
        invariant
            j <= n,
            n == v@.len(),
            v@ == old(v)@,
            bem_formada(old(v)@),
            conta(old(v)@, b) < u32::MAX,
            forall|i: int| 0 <= i < j ==> #[trigger] v@[i].0 != b,
        decreases n - j,
    {
        if v[j].0 == b {
            let ghost s = v@;
            proof {
                lema_conta_em(s, j as int);
            }
            let c = v[j].1 + 1;
            v.set(j, (b, c));
            proof {
                assert forall|x: u8| #[trigger] conta(v@, x) == conta(s, x) + if x == b { 1nat } else { 0nat } by {
                    lema_conta_update(s, j as int, c, x);
                }
            }
            return;
        }
        j = j + 1;
    }
    let ghost s = v@;
    v.push((b, 1));
    proof {
        assert forall|x: u8| #[trigger] conta(v@, x) == conta(s, x) + if x == b { 1nat } else { 0nat } by {
            lema_conta_push(s, (b, 1u32), x);
        }
    }
}

/// Conta, para cada contexto de `ordem` bytes (espalhado), que bytes vieram depois
/// dele e quantas vezes.
pub fn contar(corpus: &[u8], ordem: usize) -> (r: HashMap<usize, Vec<(u8, u32)>>)
    requires
        ordem > 0 || corpus@.len() == 0,
        forall|h: usize, b: u8| #[trigger] contagem(corpus@, ordem as nat, contextos(corpus@, ordem as nat).len() as int, h, b) < u32::MAX,
    ensures
        contado(r@, corpus@, ordem as nat, contextos(corpus@, ordem as nat).len() as int),
{
    let mut m: HashMap<usize, Vec<(u8, u32)>> = HashMap::new();
    let n = corpus.len();
    let ghost todos = contextos(corpus@, ordem as nat);
    if n > ordem {
        let mut k: usize = 0;
        while k < n - ordem
            invariant
                n == corpus@.len(),
                forall|h: usize, b: u8| #[trigger] contagem(corpus@, ordem as nat, todos.len() as int, h, b) < u32::MAX,
                n > ordem,
                k <= n - ordem,
                todos == contextos(corpus@, ordem as nat),
                contado(m@, corpus@, ordem as nat, k as int),
            decreases n - ordem - k,
        {
            let h = espalhar_trecho(corpus, k, k + ordem);
            let prox = corpus[k + ordem];
            assert(todos[k as int] == h);
            let ghost antes = m@;
            let mut v: Vec<(u8, u32)> = match m.remove(&h) {
                Some(v) => v,
                None => Vec::new(),
            };
            proof {
                if !antes.contains_key(h) {
                    assert(v@ =~= Seq::<(u8, u32)>::empty());
                }
                lema_contagem_cresce(corpus@, ordem as nat, k + 1, todos.len() as int, h, prox);
                assert(contagem(corpus@, ordem as nat, k + 1, h, prox) == contagem(corpus@, ordem as nat, k as int, h, prox) + 1);
            }
            let ghost vs = v@;
            somar(&mut v, prox);
            m.insert(h, v);
            proof {
                let k1 = k + 1;
                assert forall|g: usize| #[trigger] m@.contains_key(g) <==> exists|j: int| 0 <= j < k1 && #[trigger] todos[j] == g by {
                    if m@.contains_key(g) && g != h {
                        assert(antes.contains_key(g));
                    }
                    if exists|j: int| 0 <= j < k1 && #[trigger] todos[j] == g {
                        let j = choose|j: int| 0 <= j < k1 && #[trigger] todos[j] == g;
                        if j < k {
                            assert(antes.contains_key(g));
                        }
                    }
                }
                assert forall|g: usize, x: u8| #[trigger] m@.contains_key(g) implies conta(m@[g]@, x) == #[trigger] contagem(corpus@, ordem as nat, k1 as int, g, x) by {
                    assert(contagem(corpus@, ordem as nat, k1 as int, g, x) == contagem(corpus@, ordem as nat, k as int, g, x) + if todos[k as int] == g && corpus@[k + ordem] == x { 1nat } else { 0nat });
                    if g != h {
                        assert(antes.contains_key(g));
                    } else {
                        if !antes.contains_key(h) {
                            assert(contagem(corpus@, ordem as nat, k as int, h, x) == 0) by {
                                if contagem(corpus@, ordem as nat, k as int, h, x) > 0 {
                                    lema_contagem_positiva(corpus@, ordem as nat, k as int, h, x);
                                }
                            }
                        }
                    }
                }
            }
            k = k + 1;
        }
    }
    assert(contado(m@, corpus@, ordem as nat, todos.len() as int)) by {
        if n <= ordem {
            assert forall|h: usize, x: u8| #[trigger] m@.contains_key(h) implies conta(m@[h]@, x) == #[trigger] contagem(corpus@, ordem as nat, 0, h, x) by {}
        }
    }
    m
}

/// Os contextos que a contagem guarda são exatamente os contextos distintos do
/// corpus: quantos há na contagem é o que `contextos_distintos` devolve.
pub proof fn lei_a_contagem_ve_os_contextos_distintos(m: Map<usize, Vec<(u8, u32)>>, corpus: Seq<u8>, ordem: nat)
    requires
        contado(m, corpus, ordem, contextos(corpus, ordem).len() as int),
    ensures
        m.dom() == contextos(corpus, ordem).to_set(),
{
    let t = contextos(corpus, ordem);
    assert forall|h: usize| m.dom().contains(h) <==> t.to_set().contains(h) by {
        if m.contains_key(h) {
            let j = choose|j: int| 0 <= j < t.len() && #[trigger] t[j] == h;
            assert(t.contains(h));
        }
        if t.to_set().contains(h) {
            let j = choose|j: int| 0 <= j < t.len() && #[trigger] t[j] == h;
            assert(m.contains_key(h));
        }
    }
    assert(m.dom() =~= t.to_set());
}

proof fn lema_contagem_positiva(corpus: Seq<u8>, ordem: nat, k: int, h: usize, b: u8)
    requires
        contagem(corpus, ordem, k, h, b) > 0,
    ensures
        exists|j: int| 0 <= j < k && #[trigger] contextos(corpus, ordem)[j] == h,
    decreases k,
{
    if k > 0 {
        if contagem(corpus, ordem, k - 1, h, b) > 0 {
            lema_contagem_positiva(corpus, ordem, k - 1, h, b);
        } else {
            assert(contextos(corpus, ordem)[k - 1] == h);
        }
    }
}


// ───────────────────────────── o arquivo

pub open spec fn magico_ngrama() -> Seq<u8> {
    seq![84u8, 75, 78, 71]
}

/// `n` é uma potência de dois (1, 2, 4, ...).
pub open spec fn potencia_de_dois(n: nat) -> bool
    decreases n,
{
    if n == 0 {
        false
    } else if n == 1 {
        true
    } else {
        n % 2 == 0 && potencia_de_dois(n / 2)
    }
}

/// `n.is_power_of_two()`.
pub fn e_potencia_de_dois(n: u64) -> (r: bool)
    ensures
        r == potencia_de_dois(n as nat),
{
    let mut m = n;
    while m > 1 && m % 2 == 0
        invariant
            potencia_de_dois(m as nat) == potencia_de_dois(n as nat),
        decreases m,
    {
        m = m / 2;
    }
    m == 1
}

/// Os bytes do arquivo: a assinatura, a ordem (cortada a 32 bits), quantas
/// caselas (em 64 bits) e as caselas.
pub open spec fn arquivo_ngrama(ordem: usize, tabela: Seq<u32>) -> Seq<u8> {
    let n = tabela.len();
    magico_ngrama() + u32le(ordem as u32) + u32le((n % 0x1_0000_0000) as u32) + u32le(
        (n / 0x1_0000_0000) as u32,
    ) + palavras_le(tabela)
}

/// O `u64` little-endian que começa na posição `i`.
pub open spec fn u64_em(b: Seq<u8>, i: int) -> nat {
    (u32_em(b, i) + u32_em(b, i + 4) * 0x1_0000_0000) as nat
}

pub open spec fn sem_assinatura() -> Seq<char> {
    "nao e um arquivo de n-grama da Teka"@
}

pub open spec fn nao_e_potencia(n: u64) -> Seq<char> {
    "tamanho de tabela "@ + decimal(n) + " nao e potencia de dois"@
}

/// O que os 16 bytes do cabeçalho dizem: a ordem e quantas caselas, ou a recusa.
pub open spec fn cabecalho_ngrama(cab: Seq<u8>) -> Result<(usize, u64), Seq<char>> {
    if cab.take(4) != magico_ngrama() {
        Err(sem_assinatura())
    } else if !potencia_de_dois(u64_em(cab, 8)) {
        Err(nao_e_potencia(u64_em(cab, 8) as u64))
    } else {
        Ok((u32_em(cab, 4) as usize, u64_em(cab, 8) as u64))
    }
}

/// Os bytes de uma tabela gravada com esta ordem.
pub fn bytes_da_tabela(ordem: usize, tabela: &[u32]) -> (r: Vec<u8>)
    ensures
        r@ == arquivo_ngrama(ordem, tabela@),
{
    let mut out: Vec<u8> = Vec::new();
    out.push(84u8);
    out.push(75u8);
    out.push(78u8);
    out.push(71u8);
    assert(out@ =~= magico_ngrama());
    let o: u32 = #[verifier::truncate] (ordem as u32);
    por_u32(&mut out, o);
    let n = tabela.len() as u64;
    por_u32(&mut out, (n % 0x1_0000_0000) as u32);
    por_u32(&mut out, (n / 0x1_0000_0000) as u32);
    escrever_palavras(&mut out, tabela);
    out
}

/// Lê o cabeçalho (os primeiros 16 bytes do arquivo).
pub fn ler_cabecalho(cab: &[u8]) -> (r: Result<(usize, u64), String>)
    requires
        cab@.len() >= 16,
    ensures
        match cabecalho_ngrama(cab@) {
            Ok(v) => r == Ok::<(usize, u64), String>(v),
            Err(e) => r matches Err(x) && x@ == e,
        },
{
    if !(cab[0] == 84u8 && cab[1] == 75u8 && cab[2] == 78u8 && cab[3] == 71u8) {
        assert(cab@.take(4) != magico_ngrama()) by {
            if cab@.take(4) == magico_ngrama() {
                assert(cab@.take(4)[0] == 84u8);
                assert(cab@.take(4)[1] == 75u8);
                assert(cab@.take(4)[2] == 78u8);
                assert(cab@.take(4)[3] == 71u8);
            }
        }
        return Err(copiar("nao e um arquivo de n-grama da Teka"));
    }
    assert(cab@.take(4) =~= magico_ngrama());
    let ordem = u32_na(cab, 4);
    let lo = u32_na(cab, 8);
    let hi = u32_na(cab, 12);
    let n: u64 = lo as u64 + (hi as u64) * 0x1_0000_0000;
    assert(n == u64_em(cab@, 8));
    if !e_potencia_de_dois(n) {
        let mut v: Vec<char> = Vec::new();
        let p = crate::texto::caracteres("tamanho de tabela ");
        acrescentar_vec(&mut v, p.as_slice());
        escrever_decimal(n, &mut v);
        let q = crate::texto::caracteres(" nao e potencia de dois");
        acrescentar_vec(&mut v, q.as_slice());
        return Err(string_de(v.as_slice()));
    }
    Ok((ordem as usize, n))
}

/// As caselas gravadas depois do cabeçalho: cada 4 bytes, um `u32` (um resto de
/// menos de 4 bytes no fim é ignorado).
pub fn tabela_de(cru: &[u8]) -> (r: Vec<u32>)
    ensures
        r@ == palavras_em(cru@, 0, cru@.len() / 4),
{
    let n = cru.len();
    assert(0 + 4 * (n / 4) <= n) by (nonlinear_arith);
    ler_palavras(cru, 0, n / 4)
}

/// Gravar uma tabela e ler de volta devolve a mesma ordem, o mesmo tamanho e as
/// mesmas caselas, sempre que o tamanho é uma potência de dois e a ordem cabe em
/// 32 bits.
pub proof fn lei_tabela_volta_igual(ordem: usize, tabela: Seq<u32>)
    requires
        ordem < 0x1_0000_0000,
        potencia_de_dois(tabela.len()),
        tabela.len() < 0x1_0000_0000_0000_0000,
    ensures
        cabecalho_ngrama(arquivo_ngrama(ordem, tabela).take(16)) == Ok::<(usize, u64), Seq<char>>(
            (ordem, tabela.len() as u64),
        ),
        palavras_em(arquivo_ngrama(ordem, tabela).skip(16), 0, tabela.len()) == tabela,
        arquivo_ngrama(ordem, tabela).len() == 16 + 4 * tabela.len(),
{
    let n = tabela.len();
    let a = arquivo_ngrama(ordem, tabela);
    let lo = (n % 0x1_0000_0000) as u32;
    let hi = (n / 0x1_0000_0000) as u32;
    lema_palavras_le_tam(tabela);
    let c = a.take(16);
    assert(c.take(4) =~= magico_ngrama());
    assert(c.subrange(4, 8) =~= u32le(ordem as u32));
    assert(c.subrange(8, 12) =~= u32le(lo));
    assert(c.subrange(12, 16) =~= u32le(hi));
    lema_u32_no_meio(c, 4, ordem as u32);
    lema_u32_no_meio(c, 8, lo);
    lema_u32_no_meio(c, 12, hi);
    assert(u64_em(c, 8) == n);
    let d = a.skip(16);
    assert(d.subrange(0, 4 * n as int) =~= palavras_le(tabela));
    lema_palavras_no_meio(d, 0, tabela);
}

} // verus!
