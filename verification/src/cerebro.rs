//! O arquivo do cérebro: formato próprio, deliberadamente burro.
//!
//! ```text
//! [8]       assinatura: TEKA0001 (modelo), TEKAG001 (agente), TEKAQ008 (agente em int8)
//! [9 × 4]   a Config, cada campo em u32 little-endian
//! [4]       só no agente: quantas ferramentas o registro tinha
//! [4]       quantos tensores
//! por tensor:
//!   [4]     quantos valores
//!   f32:    os valores, 4 bytes cada (o padrão de bits do f32, little-endian)
//!   int8:   uma escala f32 a cada BLOCO valores, depois um byte por valor
//! ```
//!
//! A configuração vai gravada: o arquivo se descreve sozinho. Os tensores entram e
//! saem aqui como padrões de bits (`u32`) e bytes; convertê-los em números é com
//! quem chama.
use vstd::prelude::*;
use crate::hierarquia::Config;
use crate::texto::{acrescentar_str, decimal, escrever_decimal};

verus! {

/// Valores por bloco de quantização: cada bloco ganha uma escala.
pub const BLOCO: usize = 64;

pub open spec fn magico_modelo() -> Seq<u8> {
    seq![84u8, 69, 75, 65, 48, 48, 48, 49]
}

pub open spec fn magico_agente() -> Seq<u8> {
    seq![84u8, 69, 75, 65, 71, 48, 48, 49]
}

pub open spec fn magico_agente_q8() -> Seq<u8> {
    seq![84u8, 69, 75, 65, 81, 48, 48, 56]
}

/// Um tensor como está no arquivo.
#[derive(Clone, Debug, PartialEq, Eq)]
pub enum Tensor {
    /// Padrões de bits de `f32`.
    F32(Vec<u32>),
    /// Uma escala (padrão de bits de `f32`) por bloco, e um byte por valor.
    Q8 { escala: Vec<u32>, q: Vec<u8> },
}

pub enum TensorS {
    F32(Seq<u32>),
    Q8(Seq<u32>, Seq<u8>),
}

impl View for Tensor {
    type V = TensorS;

    open spec fn view(&self) -> TensorS {
        match self {
            Tensor::F32(v) => TensorS::F32(v@),
            Tensor::Q8 { escala, q } => TensorS::Q8(escala@, q@),
        }
    }
}

pub open spec fn vistas_tensores(v: Seq<Tensor>) -> Seq<TensorS> {
    v.map_values(|t: Tensor| t@)
}

/// Por que o arquivo foi recusado.
#[derive(Clone, Copy, Debug, PartialEq, Eq, Structural)]
pub enum ErroCerebro {
    /// Acabou antes do que o cabeçalho promete.
    Truncado,
    /// Não começa com a assinatura esperada.
    Assinatura,
    /// O agente foi treinado com outro número de ferramentas.
    Ferramentas { no_arquivo: u32, esperado: usize },
    /// O número de tensores não bate com o do modelo.
    Contagem { no_arquivo: u32, esperado: usize },
    /// Um tensor não tem o tamanho que o modelo espera.
    Tamanho { no_arquivo: u32, esperado: usize },
}

// ───────────────────────────── u32 little-endian

pub open spec fn u32le(v: u32) -> Seq<u8> {
    seq![(v & 0xff) as u8, ((v >> 8u32) & 0xff) as u8, ((v >> 16u32) & 0xff) as u8, ((v >> 24u32) & 0xff) as u8]
}

pub open spec fn u32_de(b0: u8, b1: u8, b2: u8, b3: u8) -> u32 {
    (b0 as u32) | ((b1 as u32) << 8u32) | ((b2 as u32) << 16u32) | ((b3 as u32) << 24u32)
}

/// O `u32` little-endian que começa na posição `i`.
pub open spec fn u32_em(b: Seq<u8>, i: int) -> u32 {
    u32_de(b[i], b[i + 1], b[i + 2], b[i + 3])
}

pub proof fn lema_u32le(v: u32)
    ensures
        u32_de(u32le(v)[0], u32le(v)[1], u32le(v)[2], u32le(v)[3]) == v,
{
    let b0 = (v & 0xff) as u8;
    let b1 = ((v >> 8u32) & 0xff) as u8;
    let b2 = ((v >> 16u32) & 0xff) as u8;
    let b3 = ((v >> 24u32) & 0xff) as u8;
    assert(u32_de(b0, b1, b2, b3) == v) by (bit_vector)
        requires
            b0 == (v & 0xff) as u8,
            b1 == ((v >> 8u32) & 0xff) as u8,
            b2 == ((v >> 16u32) & 0xff) as u8,
            b3 == ((v >> 24u32) & 0xff) as u8,
    ;
}

pub(crate) fn por_u32(out: &mut Vec<u8>, v: u32)
    ensures
        final(out)@ == old(out)@ + u32le(v),
{
    out.push((v & 0xff) as u8);
    out.push(((v >> 8) & 0xff) as u8);
    out.push(((v >> 16) & 0xff) as u8);
    out.push(((v >> 24) & 0xff) as u8);
    assert(final(out)@ =~= old(out)@ + u32le(v));
}

pub(crate) fn u32_na(b: &[u8], i: usize) -> (r: u32)
    requires
        i + 4 <= b@.len(),
    ensures
        r == u32_em(b@, i as int),
{
    (b[i] as u32) | ((b[i + 1] as u32) << 8) | ((b[i + 2] as u32) << 16) | ((b[i + 3] as u32) << 24)
}

/// Uma sequência de `u32`, cada um em 4 bytes little-endian.
pub open spec fn palavras_le(vs: Seq<u32>) -> Seq<u8>
    decreases vs.len(),
{
    if vs.len() == 0 {
        seq![]
    } else {
        palavras_le(vs.drop_last()) + u32le(vs.last())
    }
}

pub(crate) proof fn lema_palavras_le_tam(vs: Seq<u32>)
    ensures
        palavras_le(vs).len() == 4 * vs.len(),
    decreases vs.len(),
{
    if vs.len() > 0 {
        lema_palavras_le_tam(vs.drop_last());
    }
}

/// O `k`-ésimo `u32` de `palavras_le(vs)` é `vs[k]`.
proof fn lema_palavras_le_em(vs: Seq<u32>, k: int)
    requires
        0 <= k < vs.len(),
    ensures
        palavras_le(vs).len() == 4 * vs.len(),
        u32_em(palavras_le(vs), 4 * k) == vs[k],
    decreases vs.len(),
{
    lema_palavras_le_tam(vs);
    let w = vs.drop_last();
    lema_palavras_le_tam(w);
    if k == vs.len() - 1 {
        let p = palavras_le(vs);
        assert(p[4 * k] == u32le(vs.last())[0]);
        assert(p[4 * k + 1] == u32le(vs.last())[1]);
        assert(p[4 * k + 2] == u32le(vs.last())[2]);
        assert(p[4 * k + 3] == u32le(vs.last())[3]);
        lema_u32le(vs.last());
    } else {
        lema_palavras_le_em(w, k);
        let p = palavras_le(vs);
        assert(p[4 * k] == palavras_le(w)[4 * k]);
        assert(p[4 * k + 1] == palavras_le(w)[4 * k + 1]);
        assert(p[4 * k + 2] == palavras_le(w)[4 * k + 2]);
        assert(p[4 * k + 3] == palavras_le(w)[4 * k + 3]);
    }
}

/// Acrescenta os `u32` em little-endian.
pub(crate) fn escrever_palavras(out: &mut Vec<u8>, vs: &[u32])
    ensures
        final(out)@ == old(out)@ + palavras_le(vs@),
{
    let ghost ini = out@;
    let mut i: usize = 0;
    assert(vs@.take(0) =~= Seq::<u32>::empty());
    assert(out@ =~= ini + palavras_le(vs@.take(0)));
    while i < vs.len()
        invariant
            i <= vs@.len(),
            out@ == ini + palavras_le(vs@.take(i as int)),
        decreases vs.len() - i,
    {
        assert(vs@.take(i + 1).drop_last() =~= vs@.take(i as int));
        por_u32(out, vs[i]);
        i = i + 1;
        assert(out@ =~= ini + palavras_le(vs@.take(i as int)));
    }
    assert(vs@.take(vs@.len() as int) =~= vs@);
}

/// Os `n` `u32` que começam na posição `i`.
pub open spec fn palavras_em(b: Seq<u8>, i: int, n: nat) -> Seq<u32> {
    Seq::new(n, |k: int| u32_em(b, i + 4 * k))
}

pub(crate) fn ler_palavras(b: &[u8], i: usize, n: usize) -> (r: Vec<u32>)
    requires
        i + 4 * n <= b@.len(),
    ensures
        r@ == palavras_em(b@, i as int, n as nat),
{
    let mut r: Vec<u32> = Vec::new();
    let mut k: usize = 0;
    let nb = b.len();
    while k < n
        invariant
            k <= n,
            nb == b@.len(),
            i + 4 * n <= b@.len(),
            r@.len() == k,
            forall|j: int| 0 <= j < k ==> #[trigger] r@[j] == u32_em(b@, i + 4 * j),
        decreases n - k,
    {
        let v = u32_na(b, i + 4 * k);
        r.push(v);
        k = k + 1;
    }
    assert(r@ =~= palavras_em(b@, i as int, n as nat));
    r
}

// ───────────────────────────── a configuração

/// Os campos da Config, na ordem do arquivo, como o arquivo os guarda (`u32`).
pub open spec fn campos(c: Config) -> Seq<u32> {
    seq![
        c.d_loc as u32,
        c.h_loc as u32,
        c.f_loc as u32,
        c.n_enc as u32,
        c.n_dec as u32,
        c.d_bb as u32,
        c.h_bb as u32,
        c.f_bb as u32,
        c.n_bb as u32,
    ]
}

/// Todo campo cabe em `u32`: só assim o arquivo guarda a Config inteira.
pub open spec fn cabe_em_u32(c: Config) -> bool {
    &&& c.d_loc <= u32::MAX
    &&& c.h_loc <= u32::MAX
    &&& c.f_loc <= u32::MAX
    &&& c.n_enc <= u32::MAX
    &&& c.n_dec <= u32::MAX
    &&& c.d_bb <= u32::MAX
    &&& c.h_bb <= u32::MAX
    &&& c.f_bb <= u32::MAX
    &&& c.n_bb <= u32::MAX
}

/// A Config lida de nove `u32`.
pub open spec fn config_de(v: Seq<u32>) -> Config {
    Config {
        d_loc: v[0] as usize,
        h_loc: v[1] as usize,
        f_loc: v[2] as usize,
        n_enc: v[3] as usize,
        n_dec: v[4] as usize,
        d_bb: v[5] as usize,
        h_bb: v[6] as usize,
        f_bb: v[7] as usize,
        n_bb: v[8] as usize,
    }
}

fn campos_exec(c: &Config) -> (r: Vec<u32>)
    ensures
        r@ == campos(*c),
{
    let mut r: Vec<u32> = Vec::new();
    r.push(c.d_loc as u32);
    r.push(c.h_loc as u32);
    r.push(c.f_loc as u32);
    r.push(c.n_enc as u32);
    r.push(c.n_dec as u32);
    r.push(c.d_bb as u32);
    r.push(c.h_bb as u32);
    r.push(c.f_bb as u32);
    r.push(c.n_bb as u32);
    assert(r@ =~= campos(*c));
    r
}

fn config_exec(v: &Vec<u32>) -> (r: Config)
    requires
        v@.len() == 9,
    ensures
        r == config_de(v@),
{
    Config {
        d_loc: v[0] as usize,
        h_loc: v[1] as usize,
        f_loc: v[2] as usize,
        n_enc: v[3] as usize,
        n_dec: v[4] as usize,
        d_bb: v[5] as usize,
        h_bb: v[6] as usize,
        f_bb: v[7] as usize,
        n_bb: v[8] as usize,
    }
}

// ───────────────────────────── o arquivo, como bytes

/// Quantos blocos (e escalas) têm `len` valores: `len.div_ceil(BLOCO)`.
pub open spec fn blocos(len: nat) -> nat {
    ((len + 63) / 64) as nat
}

/// Os bytes de dados de um tensor com `len` valores.
pub open spec fn tamanho_dados(len: nat, quant: bool) -> nat {
    if quant {
        4 * blocos(len) + len
    } else {
        4 * len
    }
}

/// Quantos valores o tensor tem.
pub open spec fn valores(t: TensorS) -> nat {
    match t {
        TensorS::F32(v) => v.len(),
        TensorS::Q8(_, q) => q.len(),
    }
}

/// O tensor é do tipo do arquivo, tem escalas na conta certa, e cabe no formato.
pub open spec fn tensor_ok(t: TensorS, quant: bool) -> bool {
    match t {
        TensorS::F32(v) => !quant && v.len() <= u32::MAX,
        TensorS::Q8(e, q) => quant && q.len() <= u32::MAX && e.len() == blocos(q.len()),
    }
}

pub open spec fn tensor_le(t: TensorS) -> Seq<u8> {
    match t {
        TensorS::F32(v) => u32le(v.len() as u32) + palavras_le(v),
        TensorS::Q8(e, q) => u32le(q.len() as u32) + palavras_le(e) + q,
    }
}

pub open spec fn tensores_le(ts: Seq<TensorS>) -> Seq<u8>
    decreases ts.len(),
{
    if ts.len() == 0 {
        seq![]
    } else {
        tensor_le(ts[0]) + tensores_le(ts.drop_first())
    }
}

/// O arquivo de um modelo.
pub open spec fn arquivo_modelo(c: Config, ts: Seq<TensorS>) -> Seq<u8> {
    magico_modelo() + palavras_le(campos(c)) + u32le(ts.len() as u32) + tensores_le(ts)
}

/// O arquivo de um agente: a assinatura diz se os pesos estão em int8.
pub open spec fn arquivo_agente(c: Config, n_ferramentas: usize, quant: bool, ts: Seq<TensorS>) -> Seq<u8> {
    (if quant {
        magico_agente_q8()
    } else {
        magico_agente()
    }) + palavras_le(campos(c)) + u32le(n_ferramentas as u32) + u32le(ts.len() as u32)
        + tensores_le(ts)
}

fn escrever_tensor(out: &mut Vec<u8>, t: &Tensor)
    ensures
        final(out)@ == old(out)@ + tensor_le(t@),
{
    match t {
        Tensor::F32(v) => {
            por_u32(out, v.len() as u32);
            escrever_palavras(out, v.as_slice());
        },
        Tensor::Q8 { escala, q } => {
            por_u32(out, q.len() as u32);
            escrever_palavras(out, escala.as_slice());
            crate::texto::acrescentar_bytes(out, q.as_slice());
        },
    }
    assert(final(out)@ =~= old(out)@ + tensor_le(t@));
}

proof fn lema_tensores_le_passo(ts: Seq<TensorS>, t: TensorS)
    ensures
        tensores_le(ts.push(t)) == tensores_le(ts) + tensor_le(t),
    decreases ts.len(),
{
    if ts.len() == 0 {
        assert(ts.push(t).drop_first() =~= Seq::<TensorS>::empty());
        assert(ts.push(t)[0] == t);
        assert(tensores_le(Seq::<TensorS>::empty()) =~= Seq::<u8>::empty());
        assert(tensores_le(ts) =~= Seq::<u8>::empty());
        assert(tensores_le(ts.push(t)) =~= tensor_le(t));
    } else {
        assert(ts.push(t).drop_first() =~= ts.drop_first().push(t));
        lema_tensores_le_passo(ts.drop_first(), t);
        assert(ts.push(t)[0] == ts[0]);
        assert(tensores_le(ts.push(t)) =~= tensores_le(ts) + tensor_le(t));
    }
}

fn escrever_tensores(out: &mut Vec<u8>, ts: &[Tensor])
    ensures
        final(out)@ == old(out)@ + tensores_le(vistas_tensores(ts@)),
{
    let ghost ini = out@;
    let mut i: usize = 0;
    assert(vistas_tensores(ts@).take(0) =~= Seq::<TensorS>::empty());
    assert(out@ =~= ini + tensores_le(vistas_tensores(ts@).take(0)));
    while i < ts.len()
        invariant
            i <= ts@.len(),
            out@ == ini + tensores_le(vistas_tensores(ts@).take(i as int)),
        decreases ts.len() - i,
    {
        proof {
            assert(vistas_tensores(ts@).take(i + 1) =~= vistas_tensores(ts@).take(i as int).push(ts@[i as int]@));
            lema_tensores_le_passo(vistas_tensores(ts@).take(i as int), ts@[i as int]@);
        }
        escrever_tensor(out, &ts[i]);
        i = i + 1;
        assert(out@ =~= ini + tensores_le(vistas_tensores(ts@).take(i as int)));
    }
    assert(vistas_tensores(ts@).take(ts@.len() as int) =~= vistas_tensores(ts@));
}

fn escrever_magico(out: &mut Vec<u8>, m: [u8; 8])
    ensures
        final(out)@ == old(out)@ + m@,
{
    let mut i: usize = 0;
    let ghost ini = out@;
    while i < 8
        invariant
            i <= 8,
            out@ == ini + m@.take(i as int),
        decreases 8 - i,
    {
        out.push(m[i]);
        i = i + 1;
        assert(out@ =~= ini + m@.take(i as int));
    }
    assert(m@.take(8) =~= m@);
}

/// Os bytes do arquivo de um modelo: a Config e os tensores em f32.
pub fn bytes_do_modelo(cfg: &Config, tensores: &[Tensor]) -> (r: Vec<u8>)
    ensures
        r@ == arquivo_modelo(*cfg, vistas_tensores(tensores@)),
{
    let mut out: Vec<u8> = Vec::new();
    let m: [u8; 8] = [84, 69, 75, 65, 48, 48, 48, 49];
    assert(m@ =~= magico_modelo());
    escrever_magico(&mut out, m);
    let c = campos_exec(cfg);
    escrever_palavras(&mut out, c.as_slice());
    por_u32(&mut out, tensores.len() as u32);
    escrever_tensores(&mut out, tensores);
    assert(out@ =~= arquivo_modelo(*cfg, vistas_tensores(tensores@)));
    out
}

/// Os bytes do arquivo de um agente: a Config, quantas ferramentas, e os tensores,
/// em f32 ou em int8 por bloco.
pub fn bytes_do_agente(cfg: &Config, n_ferramentas: usize, quantizado: bool, tensores: &[Tensor]) -> (r: Vec<u8>)
    ensures
        r@ == arquivo_agente(*cfg, n_ferramentas, quantizado, vistas_tensores(tensores@)),
{
    let mut out: Vec<u8> = Vec::new();
    if quantizado {
        let m: [u8; 8] = [84, 69, 75, 65, 81, 48, 48, 56];
        assert(m@ =~= magico_agente_q8());
        escrever_magico(&mut out, m);
    } else {
        let m: [u8; 8] = [84, 69, 75, 65, 71, 48, 48, 49];
        assert(m@ =~= magico_agente());
        escrever_magico(&mut out, m);
    }
    let c = campos_exec(cfg);
    escrever_palavras(&mut out, c.as_slice());
    por_u32(&mut out, n_ferramentas as u32);
    por_u32(&mut out, tensores.len() as u32);
    escrever_tensores(&mut out, tensores);
    assert(out@ =~= arquivo_agente(*cfg, n_ferramentas, quantizado, vistas_tensores(tensores@)));
    out
}

// ───────────────────────────── a leitura

/// O cabeçalho de um modelo: a assinatura e a Config. Os tensores começam na
/// posição 44.
pub open spec fn cabecalho_modelo(b: Seq<u8>) -> Result<Config, ErroCerebro> {
    if b.len() < 8 {
        Err(ErroCerebro::Truncado)
    } else if b.take(8) != magico_modelo() {
        Err(ErroCerebro::Assinatura)
    } else if b.len() < 44 {
        Err(ErroCerebro::Truncado)
    } else {
        Ok(config_de(palavras_em(b, 8, 9)))
    }
}

/// O cabeçalho de um agente: a assinatura (que diz se é int8), a Config, e o
/// número de ferramentas, que tem de ser o do registro atual. Os tensores começam
/// na posição 48.
pub open spec fn cabecalho_agente(b: Seq<u8>, n_ferramentas: usize) -> Result<(Config, bool), ErroCerebro> {
    if b.len() < 8 {
        Err(ErroCerebro::Truncado)
    } else if b.take(8) != magico_agente() && b.take(8) != magico_agente_q8() {
        Err(ErroCerebro::Assinatura)
    } else if b.len() < 48 {
        Err(ErroCerebro::Truncado)
    } else if u32_em(b, 44) as int != n_ferramentas as int {
        Err(ErroCerebro::Ferramentas { no_arquivo: u32_em(b, 44), esperado: n_ferramentas })
    } else {
        Ok((config_de(palavras_em(b, 8, 9)), b.take(8) == magico_agente_q8()))
    }
}

/// O tensor de `len` valores cujos dados começam na posição `i`.
pub open spec fn tensor_em(b: Seq<u8>, i: int, len: nat, quant: bool) -> TensorS {
    if quant {
        TensorS::Q8(
            palavras_em(b, i, blocos(len)),
            b.subrange(i + 4 * blocos(len), i + 4 * blocos(len) + len),
        )
    } else {
        TensorS::F32(palavras_em(b, i, len))
    }
}

/// Os tensores a partir do `k`-ésimo, cujo cabeçalho está na posição `pos`: cada
/// um tem de ter o tamanho esperado e caber no arquivo.
pub open spec fn tensores_de(b: Seq<u8>, pos: int, esperado: Seq<usize>, quant: bool, k: int) -> Result<Seq<TensorS>, ErroCerebro>
    decreases esperado.len() - k,
{
    if k >= esperado.len() || k < 0 {
        Ok(seq![])
    } else if pos + 4 > b.len() {
        Err(ErroCerebro::Truncado)
    } else {
        let len = u32_em(b, pos);
        if len as int != esperado[k] as int {
            Err(ErroCerebro::Tamanho { no_arquivo: len, esperado: esperado[k] })
        } else if pos + 4 + tamanho_dados(len as nat, quant) > b.len() {
            Err(ErroCerebro::Truncado)
        } else {
            match tensores_de(b, pos + 4 + tamanho_dados(len as nat, quant), esperado, quant, k + 1) {
                Ok(r) => Ok(seq![tensor_em(b, pos + 4, len as nat, quant)] + r),
                Err(e) => Err(e),
            }
        }
    }
}

/// O corpo a partir da posição `pos`: quantos tensores (tem de ser o esperado) e
/// cada um deles.
pub open spec fn corpo(b: Seq<u8>, pos: int, esperado: Seq<usize>, quant: bool) -> Result<Seq<TensorS>, ErroCerebro> {
    if pos + 4 > b.len() {
        Err(ErroCerebro::Truncado)
    } else if u32_em(b, pos) as int != esperado.len() as int {
        Err(ErroCerebro::Contagem { no_arquivo: u32_em(b, pos), esperado: esperado.len() as usize })
    } else {
        tensores_de(b, pos + 4, esperado, quant, 0)
    }
}

fn copiar_bytes(b: &[u8], i: usize, j: usize) -> (r: Vec<u8>)
    requires
        i <= j <= b@.len(),
    ensures
        r@ == b@.subrange(i as int, j as int),
{
    let mut r: Vec<u8> = Vec::new();
    let mut k: usize = i;
    while k < j
        invariant
            i <= k <= j <= b@.len(),
            r@ == b@.subrange(i as int, k as int),
        decreases j - k,
    {
        r.push(b[k]);
        k = k + 1;
        assert(r@ =~= b@.subrange(i as int, k as int));
    }
    r
}

fn e_magico(b: &[u8], m: [u8; 8]) -> (r: bool)
    requires
        b@.len() >= 8,
    ensures
        r == (b@.take(8) == m@),
{
    let mut i: usize = 0;
    while i < 8
        invariant
            i <= 8,
            b@.len() >= 8,
            forall|k: int| 0 <= k < i ==> b@[k] == m@[k],
        decreases 8 - i,
    {
        if b[i] != m[i] {
            assert(b@.take(8)[i as int] != m@[i as int]);
            return false;
        }
        i = i + 1;
    }
    assert(b@.take(8) =~= m@);
    true
}

/// O cabeçalho de um modelo.
pub fn ler_cabecalho_modelo(b: &[u8]) -> (r: Result<Config, ErroCerebro>)
    ensures
        r == cabecalho_modelo(b@),
{
    if b.len() < 8 {
        return Err(ErroCerebro::Truncado);
    }
    let m: [u8; 8] = [84, 69, 75, 65, 48, 48, 48, 49];
    assert(m@ =~= magico_modelo());
    if !e_magico(b, m) {
        return Err(ErroCerebro::Assinatura);
    }
    if b.len() < 44 {
        return Err(ErroCerebro::Truncado);
    }
    let c = ler_palavras(b, 8, 9);
    Ok(config_exec(&c))
}

/// O cabeçalho de um agente: a Config e se os pesos estão em int8.
pub fn ler_cabecalho_agente(b: &[u8], n_ferramentas: usize) -> (r: Result<(Config, bool), ErroCerebro>)
    ensures
        r == cabecalho_agente(b@, n_ferramentas),
{
    if b.len() < 8 {
        return Err(ErroCerebro::Truncado);
    }
    let mg: [u8; 8] = [84, 69, 75, 65, 71, 48, 48, 49];
    let mq: [u8; 8] = [84, 69, 75, 65, 81, 48, 48, 56];
    assert(mg@ =~= magico_agente());
    assert(mq@ =~= magico_agente_q8());
    let e_g = e_magico(b, mg);
    let quant = e_magico(b, mq);
    if !e_g && !quant {
        return Err(ErroCerebro::Assinatura);
    }
    if b.len() < 48 {
        return Err(ErroCerebro::Truncado);
    }
    let nf = u32_na(b, 44);
    if nf as usize != n_ferramentas || (nf as u64) != (n_ferramentas as u64) {
        return Err(ErroCerebro::Ferramentas { no_arquivo: nf, esperado: n_ferramentas });
    }
    let c = ler_palavras(b, 8, 9);
    Ok((config_exec(&c), quant))
}

pub open spec fn com_prefixo(acc: Seq<TensorS>, r: Result<Seq<TensorS>, ErroCerebro>) -> Result<Seq<TensorS>, ErroCerebro> {
    match r {
        Ok(s) => Ok(acc + s),
        Err(e) => Err(e),
    }
}

/// Os tensores do corpo que começa em `pos`, com os tamanhos que o modelo espera.
pub fn ler_tensores(b: &[u8], pos: usize, esperado: &[usize], quantizado: bool) -> (r: Result<Vec<Tensor>, ErroCerebro>)
    ensures
        match corpo(b@, pos as int, esperado@, quantizado) {
            Ok(ts) => r matches Ok(v) && vistas_tensores(v@) == ts,
            Err(e) => r == Err::<Vec<Tensor>, ErroCerebro>(e),
        },
{
    let nb = b.len();
    if pos > nb || nb - pos < 4 {
        return Err(ErroCerebro::Truncado);
    }
    let n = u32_na(b, pos);
    if n as u64 != esperado.len() as u64 {
        return Err(ErroCerebro::Contagem { no_arquivo: n, esperado: esperado.len() });
    }
    let mut p: usize = pos + 4;
    let mut acc: Vec<Tensor> = Vec::new();
    let mut k: usize = 0;
    assert(vistas_tensores(acc@) =~= Seq::<TensorS>::empty());
    assert(com_prefixo(Seq::<TensorS>::empty(), tensores_de(b@, p as int, esperado@, quantizado, 0)) =~= tensores_de(b@, p as int, esperado@, quantizado, 0)) by {
        match tensores_de(b@, p as int, esperado@, quantizado, 0) {
            Ok(s) => {
                assert(Seq::<TensorS>::empty() + s =~= s);
            },
            Err(e) => {},
        }
    }
    while k < esperado.len()
        invariant
            nb == b@.len(),
            k <= esperado@.len(),
            p <= nb,
            corpo(b@, pos as int, esperado@, quantizado) == tensores_de(b@, pos + 4, esperado@, quantizado, 0),
            tensores_de(b@, pos + 4, esperado@, quantizado, 0) == com_prefixo(
                vistas_tensores(acc@),
                tensores_de(b@, p as int, esperado@, quantizado, k as int),
            ),
        decreases esperado.len() - k,
    {
        if nb - p < 4 {
            return Err(ErroCerebro::Truncado);
        }
        let len = u32_na(b, p);
        if len as u64 != esperado[k] as u64 {
            return Err(ErroCerebro::Tamanho { no_arquivo: len, esperado: esperado[k] });
        }
        let nblocos: u64 = ((len as u64) + 63) / 64;
        let dados: u64 = if quantizado {
            4 * nblocos + (len as u64)
        } else {
            4 * (len as u64)
        };
        assert(dados == tamanho_dados(len as nat, quantizado));
        if dados > (nb - p - 4) as u64 {
            return Err(ErroCerebro::Truncado);
        }
        let ini = p + 4;
        let t = if quantizado {
            let escala = ler_palavras(b, ini, nblocos as usize);
            let q = copiar_bytes(b, ini + 4 * (nblocos as usize), ini + 4 * (nblocos as usize) + len as usize);
            Tensor::Q8 { escala, q }
        } else {
            let v = ler_palavras(b, ini, len as usize);
            Tensor::F32(v)
        };
        assert(t@ == tensor_em(b@, ini as int, len as nat, quantizado));
        let ghost antes = vistas_tensores(acc@);
        acc.push(t);
        proof {
            assert(vistas_tensores(acc@) =~= antes.push(t@));
            let resto = tensores_de(b@, ini + dados, esperado@, quantizado, k + 1);
            match resto {
                Ok(s) => {
                    assert(antes + (seq![t@] + s) =~= antes.push(t@) + s);
                },
                Err(e) => {},
            }
        }
        p = ini + dados as usize;
        k = k + 1;
    }
    proof {
        assert(vistas_tensores(acc@) + Seq::<TensorS>::empty() =~= vistas_tensores(acc@));
    }
    Ok(acc)
}

// ───────────────────────────── as mensagens

/// O que dizer de um arquivo recusado; `do_agente` escolhe entre o cérebro e o
/// agente nas mensagens que os distinguem.
pub open spec fn mensagem_de(e: ErroCerebro, do_agente: bool) -> Seq<char> {
    match e {
        ErroCerebro::Truncado => "failed to fill whole buffer"@,
        ErroCerebro::Assinatura => if do_agente {
            "nao e um agente da Teka (assinatura errada)"@
        } else {
            "não é um cérebro da Teka (assinatura errada)"@
        },
        ErroCerebro::Ferramentas { no_arquivo, esperado } => "agente treinado com "@ + decimal(
            no_arquivo as u64,
        ) + " ferramentas, o registro atual tem "@ + decimal(esperado as u64),
        ErroCerebro::Contagem { no_arquivo, esperado } => "arquivo tem "@ + decimal(no_arquivo as u64)
            + (if do_agente {
            " tensores, o agente espera "@
        } else {
            " tensores, o modelo espera "@
        }) + decimal(esperado as u64),
        ErroCerebro::Tamanho { no_arquivo, esperado } => "tensor com "@ + decimal(no_arquivo as u64)
            + " valores, esperado "@ + decimal(esperado as u64),
    }
}

impl ErroCerebro {
    pub fn mensagem(&self, do_agente: bool) -> (r: String)
        ensures
            r@ == mensagem_de(*self, do_agente),
    {
        let mut v: Vec<char> = Vec::new();
        let mut s = String::new();
        match *self {
            ErroCerebro::Truncado => {
                acrescentar_str(&mut s, "failed to fill whole buffer");
            },
            ErroCerebro::Assinatura => {
                if do_agente {
                    acrescentar_str(&mut s, "nao e um agente da Teka (assinatura errada)");
                } else {
                    acrescentar_str(&mut s, "não é um cérebro da Teka (assinatura errada)");
                }
            },
            ErroCerebro::Ferramentas { no_arquivo, esperado } => {
                acrescentar_str(&mut s, "agente treinado com ");
                escrever_decimal(no_arquivo as u64, &mut v);
                crate::texto::acrescentar(&mut s, v.as_slice());
                acrescentar_str(&mut s, " ferramentas, o registro atual tem ");
                let mut w: Vec<char> = Vec::new();
                escrever_decimal(esperado as u64, &mut w);
                crate::texto::acrescentar(&mut s, w.as_slice());
            },
            ErroCerebro::Contagem { no_arquivo, esperado } => {
                acrescentar_str(&mut s, "arquivo tem ");
                escrever_decimal(no_arquivo as u64, &mut v);
                crate::texto::acrescentar(&mut s, v.as_slice());
                if do_agente {
                    acrescentar_str(&mut s, " tensores, o agente espera ");
                } else {
                    acrescentar_str(&mut s, " tensores, o modelo espera ");
                }
                let mut w: Vec<char> = Vec::new();
                escrever_decimal(esperado as u64, &mut w);
                crate::texto::acrescentar(&mut s, w.as_slice());
            },
            ErroCerebro::Tamanho { no_arquivo, esperado } => {
                acrescentar_str(&mut s, "tensor com ");
                escrever_decimal(no_arquivo as u64, &mut v);
                crate::texto::acrescentar(&mut s, v.as_slice());
                acrescentar_str(&mut s, " valores, esperado ");
                let mut w: Vec<char> = Vec::new();
                escrever_decimal(esperado as u64, &mut w);
                crate::texto::acrescentar(&mut s, w.as_slice());
            },
        }
        s
    }
}

// ───────────────────────────── ler de volta o que se escreveu

/// Quantos valores cada tensor tem.
pub open spec fn tamanhos(ts: Seq<TensorS>) -> Seq<usize> {
    Seq::new(ts.len(), |i: int| valores(ts[i]) as usize)
}

pub(crate) proof fn lema_u32_no_meio(b: Seq<u8>, i: int, v: u32)
    requires
        0 <= i,
        i + 4 <= b.len(),
        b.subrange(i, i + 4) == u32le(v),
    ensures
        u32_em(b, i) == v,
{
    assert(b[i] == b.subrange(i, i + 4)[0]);
    assert(b[i + 1] == b.subrange(i, i + 4)[1]);
    assert(b[i + 2] == b.subrange(i, i + 4)[2]);
    assert(b[i + 3] == b.subrange(i, i + 4)[3]);
    lema_u32le(v);
}

pub(crate) proof fn lema_palavras_no_meio(b: Seq<u8>, i: int, vs: Seq<u32>)
    requires
        0 <= i,
        i + 4 * vs.len() <= b.len(),
        b.subrange(i, i + 4 * vs.len()) == palavras_le(vs),
    ensures
        palavras_em(b, i, vs.len()) == vs,
{
    assert forall|k: int| 0 <= k < vs.len() implies #[trigger] palavras_em(b, i, vs.len())[k] == vs[k] by {
        lema_palavras_le_em(vs, k);
        let p = palavras_le(vs);
        let r = b.subrange(i, i + 4 * vs.len());
        assert(b[i + 4 * k] == r[4 * k]);
        assert(b[i + 4 * k + 1] == r[4 * k + 1]);
        assert(b[i + 4 * k + 2] == r[4 * k + 2]);
        assert(b[i + 4 * k + 3] == r[4 * k + 3]);
    }
    assert(palavras_em(b, i, vs.len()) =~= vs);
}

proof fn lema_tensor_le_tam(t: TensorS, quant: bool)
    requires
        tensor_ok(t, quant),
    ensures
        tensor_le(t).len() == 4 + tamanho_dados(valores(t), quant),
{
    match t {
        TensorS::F32(v) => {
            lema_palavras_le_tam(v);
        },
        TensorS::Q8(e, q) => {
            lema_palavras_le_tam(e);
        },
    }
}

/// Tensores escritos em sequência são lidos de volta iguais, a partir de qualquer
/// posição em que estejam.
proof fn lema_tensores_voltam(b: Seq<u8>, pos: int, esperado: Seq<usize>, quant: bool, k: int, ts: Seq<TensorS>)
    requires
        0 <= pos,
        0 <= k,
        pos + tensores_le(ts).len() <= b.len(),
        b.subrange(pos, pos + tensores_le(ts).len()) == tensores_le(ts),
        esperado.len() == k + ts.len(),
        esperado.subrange(k, esperado.len() as int) == tamanhos(ts),
        forall|i: int| 0 <= i < ts.len() ==> tensor_ok(#[trigger] ts[i], quant),
    ensures
        tensores_de(b, pos, esperado, quant, k) == Ok::<Seq<TensorS>, ErroCerebro>(ts),
    decreases ts.len(),
{
    if ts.len() == 0 {
        assert(tensores_de(b, pos, esperado, quant, k) == Ok::<Seq<TensorS>, ErroCerebro>(seq![]));
        assert(ts =~= Seq::<TensorS>::empty());
    } else {
        let t = ts[0];
        let resto = ts.drop_first();
        assert(tensor_ok(t, quant));
        assert forall|i: int| 0 <= i < resto.len() implies tensor_ok(#[trigger] resto[i], quant) by {
            assert(resto[i] == ts[i + 1]);
        }
        lema_tensor_le_tam(t, quant);
        let et = tensor_le(t);
        let er = tensores_le(resto);
        assert(tensores_le(ts) == et + er);
        let n = valores(t);
        let r = b.subrange(pos, pos + tensores_le(ts).len());
        assert(b.subrange(pos, pos + 4) =~= u32le(n as u32)) by {
            assert forall|j: int| 0 <= j < 4 implies #[trigger] b.subrange(pos, pos + 4)[j] == u32le(n as u32)[j] by {
                assert(b.subrange(pos, pos + 4)[j] == r[j]);
                assert(r[j] == et[j]);
            }
        }
        lema_u32_no_meio(b, pos, n as u32);
        assert(esperado[k] == tamanhos(ts)[0]);
        let ini = pos + 4;
        match t {
            TensorS::F32(v) => {
                lema_palavras_le_tam(v);
                assert(b.subrange(ini, ini + 4 * v.len()) =~= palavras_le(v)) by {
                    assert forall|j: int| 0 <= j < 4 * v.len() implies #[trigger] b.subrange(ini, ini + 4 * v.len())[j] == palavras_le(v)[j] by {
                        assert(b.subrange(ini, ini + 4 * v.len())[j] == r[4 + j]);
                        assert(r[4 + j] == et[4 + j]);
                    }
                }
                lema_palavras_no_meio(b, ini, v);
            },
            TensorS::Q8(e, q) => {
                lema_palavras_le_tam(e);
                assert(b.subrange(ini, ini + 4 * e.len()) =~= palavras_le(e)) by {
                    assert forall|j: int| 0 <= j < 4 * e.len() implies #[trigger] b.subrange(ini, ini + 4 * e.len())[j] == palavras_le(e)[j] by {
                        assert(b.subrange(ini, ini + 4 * e.len())[j] == r[4 + j]);
                        assert(r[4 + j] == et[4 + j]);
                    }
                }
                lema_palavras_no_meio(b, ini, e);
                let qi = ini + 4 * e.len();
                assert(b.subrange(qi, qi + q.len()) =~= q) by {
                    assert forall|j: int| 0 <= j < q.len() implies #[trigger] b.subrange(qi, qi + q.len())[j] == q[j] by {
                        assert(b.subrange(qi, qi + q.len())[j] == r[4 + 4 * e.len() + j]);
                        assert(r[4 + 4 * e.len() + j] == et[4 + 4 * e.len() + j]);
                    }
                }
            },
        }
        assert(tensor_em(b, ini, n, quant) == t);
        let prox = pos + et.len();
        assert(b.subrange(prox, prox + er.len()) =~= er) by {
            assert forall|j: int| 0 <= j < er.len() implies #[trigger] b.subrange(prox, prox + er.len())[j] == er[j] by {
                assert(b.subrange(prox, prox + er.len())[j] == r[et.len() + j]);
            }
        }
        assert(esperado.subrange(k + 1, esperado.len() as int) =~= tamanhos(resto)) by {
            assert forall|j: int| 0 <= j < resto.len() implies #[trigger] esperado.subrange(k + 1, esperado.len() as int)[j] == tamanhos(resto)[j] by {
                assert(esperado.subrange(k + 1, esperado.len() as int)[j] == esperado.subrange(k, esperado.len() as int)[j + 1]);
                assert(resto[j] == ts[j + 1]);
            }
        }
        lema_tensores_voltam(b, prox, esperado, quant, k + 1, resto);
        assert(seq![t] + resto =~= ts);
    }
}

/// O que o cérebro grava, ele lê de volta: a mesma Config e os mesmos tensores,
/// com os tamanhos que o modelo espera.
pub proof fn lei_modelo_volta_igual(c: Config, ts: Seq<TensorS>)
    requires
        cabe_em_u32(c),
        ts.len() <= u32::MAX,
        forall|i: int| 0 <= i < ts.len() ==> tensor_ok(#[trigger] ts[i], false),
    ensures
        cabecalho_modelo(arquivo_modelo(c, ts)) == Ok::<Config, ErroCerebro>(c),
        corpo(arquivo_modelo(c, ts), 44, tamanhos(ts), false) == Ok::<Seq<TensorS>, ErroCerebro>(ts),
{
    let b = arquivo_modelo(c, ts);
    lema_palavras_le_tam(campos(c));
    let cab = magico_modelo() + palavras_le(campos(c));
    assert(b.take(8) =~= magico_modelo());
    assert(b.subrange(8, 44) =~= palavras_le(campos(c)));
    lema_palavras_no_meio(b, 8, campos(c));
    assert(config_de(campos(c)) == c);
    assert(b.subrange(44, 48) =~= u32le(ts.len() as u32));
    lema_u32_no_meio(b, 44, ts.len() as u32);
    let enc = tensores_le(ts);
    assert(b.subrange(48, 48 + enc.len() as int) =~= enc);
    assert(tamanhos(ts).subrange(0, tamanhos(ts).len() as int) =~= tamanhos(ts));
    lema_tensores_voltam(b, 48, tamanhos(ts), false, 0, ts);
}

/// O mesmo para o agente, em f32 ou em int8: a Config, se é int8, e os tensores
/// voltam iguais, desde que o registro tenha o mesmo número de ferramentas.
pub proof fn lei_agente_volta_igual(c: Config, n_ferramentas: usize, quant: bool, ts: Seq<TensorS>)
    requires
        cabe_em_u32(c),
        n_ferramentas <= u32::MAX,
        ts.len() <= u32::MAX,
        forall|i: int| 0 <= i < ts.len() ==> tensor_ok(#[trigger] ts[i], quant),
    ensures
        cabecalho_agente(arquivo_agente(c, n_ferramentas, quant, ts), n_ferramentas) == Ok::<
            (Config, bool),
            ErroCerebro,
        >((c, quant)),
        corpo(arquivo_agente(c, n_ferramentas, quant, ts), 48, tamanhos(ts), quant) == Ok::<
            Seq<TensorS>,
            ErroCerebro,
        >(ts),
{
    let b = arquivo_agente(c, n_ferramentas, quant, ts);
    lema_palavras_le_tam(campos(c));
    let m = if quant {
        magico_agente_q8()
    } else {
        magico_agente()
    };
    assert(b.take(8) =~= m);
    assert(magico_agente() != magico_agente_q8()) by {
        assert(magico_agente()[4] != magico_agente_q8()[4]);
    }
    assert(b.subrange(8, 44) =~= palavras_le(campos(c)));
    lema_palavras_no_meio(b, 8, campos(c));
    assert(config_de(campos(c)) == c);
    assert(b.subrange(44, 48) =~= u32le(n_ferramentas as u32));
    lema_u32_no_meio(b, 44, n_ferramentas as u32);
    assert(b.subrange(48, 52) =~= u32le(ts.len() as u32));
    lema_u32_no_meio(b, 48, ts.len() as u32);
    let enc = tensores_le(ts);
    assert(b.subrange(52, 52 + enc.len() as int) =~= enc);
    assert(tamanhos(ts).subrange(0, tamanhos(ts).len() as int) =~= tamanhos(ts));
    lema_tensores_voltam(b, 52, tamanhos(ts), quant, 0, ts);
}

/// Um arquivo com a assinatura de outra coisa é recusado pela assinatura, antes
/// de qualquer outra leitura.
pub proof fn lei_assinatura_errada_e_recusada(b: Seq<u8>, n_ferramentas: usize)
    requires
        b.len() >= 8,
        b.take(8) != magico_modelo(),
        b.take(8) != magico_agente(),
        b.take(8) != magico_agente_q8(),
    ensures
        cabecalho_modelo(b) == Err::<Config, ErroCerebro>(ErroCerebro::Assinatura),
        cabecalho_agente(b, n_ferramentas) == Err::<(Config, bool), ErroCerebro>(ErroCerebro::Assinatura),
{
}

} // verus!
