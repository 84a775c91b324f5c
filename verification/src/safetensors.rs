//! Os pesos em safetensors, para inspeção fora daqui.
//!
//! ```text
//! [8 bytes]  N = tamanho do cabeçalho, u64 little-endian
//! [N bytes]  cabeçalho JSON, completado com espaços até os dados caírem em 8
//! [resto]    os dados, crus: cada valor f32 em 4 bytes little-endian
//! ```
//!
//! Cada entrada do JSON é
//! `"nome":{"dtype":"F32","shape":[...],"data_offsets":[inicio,fim]}`, com os
//! deslocamentos relativos ao início do bloco de dados, e `__metadata__` vem por
//! último, sempre.
use vstd::prelude::*;
use vstd::utf8::encode_utf8;
use crate::cerebro::palavras_le;
use crate::servidor::{escapado_resposta, escapar};
use crate::texto::{decimal, escrever_decimal, string_de};

verus! {

/// Os números separados por vírgula.
pub open spec fn lista_de_numeros(ns: Seq<usize>) -> Seq<char>
    decreases ns.len(),
{
    if ns.len() == 0 {
        seq![]
    } else if ns.len() == 1 {
        decimal(ns[0] as u64)
    } else {
        lista_de_numeros(ns.drop_last()) + seq![','] + decimal(ns.last() as u64)
    }
}

/// A entrada de um tensor no cabeçalho.
pub open spec fn entrada(nome: Seq<char>, forma: Seq<usize>, ini: nat, fim: nat) -> Seq<char> {
    "\""@ + escapado_resposta(nome) + "\":{\"dtype\":\"F32\",\"shape\":["@ + lista_de_numeros(forma)
        + "],\"data_offsets\":["@ + decimal(ini as u64) + ","@ + decimal(fim as u64) + "]},"@
}

/// As entradas de todos os tensores, cada um começando onde o anterior acabou.
/// Um tensor é `(nome, forma, quantos valores)`.
pub open spec fn entradas(ts: Seq<(Seq<char>, Seq<usize>, nat)>, ini: nat) -> Seq<char>
    decreases ts.len(),
{
    if ts.len() == 0 {
        seq![]
    } else {
        let fim = ini + 4 * ts[0].2;
        entrada(ts[0].0, ts[0].1, ini, fim) + entradas(ts.drop_first(), fim)
    }
}

/// Quantos bytes de dados os tensores somam.
pub open spec fn bytes_de_dados(ts: Seq<(Seq<char>, Seq<usize>, nat)>) -> nat
    decreases ts.len(),
{
    if ts.len() == 0 {
        0
    } else {
        4 * ts[0].2 + bytes_de_dados(ts.drop_first())
    }
}

/// Os metadados, `"chave":"valor"` separados por vírgula.
pub open spec fn metadados_de(ms: Seq<(Seq<char>, Seq<char>)>) -> Seq<char>
    decreases ms.len(),
{
    if ms.len() == 0 {
        seq![]
    } else {
        let par = "\""@ + escapado_resposta(ms.last().0) + "\":\""@ + escapado_resposta(ms.last().1)
            + "\""@;
        if ms.len() == 1 {
            par
        } else {
            metadados_de(ms.drop_last()) + ","@ + par
        }
    }
}

/// O cabeçalho antes de completar o alinhamento.
pub open spec fn json(ts: Seq<(Seq<char>, Seq<usize>, nat)>, ms: Seq<(Seq<char>, Seq<char>)>) -> Seq<char> {
    seq!['{'] + entradas(ts, 0) + "\"__metadata__\":{"@ + metadados_de(ms) + "}}"@
}

/// Quantos espaços faltam para `8 + n` bytes caírem em múltiplo de 8.
pub open spec fn espacos(n: nat) -> nat {
    ((8 - (n % 8)) % 8) as nat
}

/// O cabeçalho, completado com espaços: os dados começam alinhados em 8 bytes.
pub open spec fn cabecalho(ts: Seq<(Seq<char>, Seq<usize>, nat)>, ms: Seq<(Seq<char>, Seq<char>)>) -> Seq<char> {
    let j = json(ts, ms);
    j + Seq::new(espacos(encode_utf8(j).len()), |i: int| ' ')
}

pub open spec fn vista_tensor(t: (String, Vec<usize>, Vec<u32>)) -> (Seq<char>, Seq<usize>, nat) {
    (t.0@, t.1@, t.2@.len())
}

pub open spec fn vista_tensores(ts: Seq<(String, Vec<usize>, Vec<u32>)>) -> Seq<(Seq<char>, Seq<usize>, nat)> {
    ts.map_values(|t: (String, Vec<usize>, Vec<u32>)| vista_tensor(t))
}

pub open spec fn vista_metadados(ms: Seq<(String, String)>) -> Seq<(Seq<char>, Seq<char>)> {
    ms.map_values(|m: (String, String)| (m.0@, m.1@))
}

/// Os dados: os valores de cada tensor, em ordem.
pub open spec fn dados(ts: Seq<(String, Vec<usize>, Vec<u32>)>) -> Seq<u8>
    decreases ts.len(),
{
    if ts.len() == 0 {
        seq![]
    } else {
        dados(ts.drop_last()) + palavras_le(ts.last().2@)
    }
}

pub open spec fn u64le(v: u64) -> Seq<u8> {
    Seq::new(8, |i: int| ((v >> (8 * i) as u64) & 0xff) as u8)
}

/// O arquivo inteiro.
pub open spec fn arquivo(ts: Seq<(String, Vec<usize>, Vec<u32>)>, ms: Seq<(String, String)>) -> Seq<u8> {
    let c = encode_utf8(cabecalho(vista_tensores(ts), vista_metadados(ms)));
    u64le(c.len() as u64) + c + dados(ts)
}

fn lista_exec(ns: &[usize]) -> (r: Vec<char>)
    ensures
        r@ == lista_de_numeros(ns@),
{
    let mut r: Vec<char> = Vec::new();
    let mut i: usize = 0;
    assert(ns@.take(0) =~= Seq::<usize>::empty());
    while i < ns.len()
        invariant
            i <= ns@.len(),
            r@ == lista_de_numeros(ns@.take(i as int)),
        decreases ns.len() - i,
    {
        assert(ns@.take(i + 1).drop_last() =~= ns@.take(i as int));
        assert(ns@.take(i + 1).last() == ns@[i as int]);
        if i == 0 {
            assert(ns@.take(1) =~= seq![ns@[0]]);
        }
        if i > 0 {
            r.push(',');
        }
        escrever_decimal(ns[i] as u64, &mut r);
        i = i + 1;
        assert(r@ =~= lista_de_numeros(ns@.take(i as int)));
    }
    assert(ns@.take(ns@.len() as int) =~= ns@);
    r
}

proof fn lema_entradas_passo(ts: Seq<(Seq<char>, Seq<usize>, nat)>, t: (Seq<char>, Seq<usize>, nat), ini: nat)
    ensures
        entradas(ts.push(t), ini) == entradas(ts, ini) + entrada(t.0, t.1, ini + bytes_de_dados(ts), ini + bytes_de_dados(ts) + 4 * t.2),
        bytes_de_dados(ts.push(t)) == bytes_de_dados(ts) + 4 * t.2,
    decreases ts.len(),
{
    if ts.len() == 0 {
        assert(ts.push(t).drop_first() =~= Seq::<(Seq<char>, Seq<usize>, nat)>::empty());
        assert(ts.push(t)[0] == t);
        assert(bytes_de_dados(ts.push(t).drop_first()) == 0);
        assert(bytes_de_dados(ts) == 0);
        assert(entradas(ts, ini) =~= Seq::<char>::empty());
        assert(entradas(ts.push(t).drop_first(), ini + 4 * t.2) =~= Seq::<char>::empty());
        assert(entradas(ts.push(t), ini) =~= entradas(ts, ini) + entrada(t.0, t.1, ini, ini + 4 * t.2));
    } else {
        assert(ts.push(t).drop_first() =~= ts.drop_first().push(t));
        assert(ts.push(t)[0] == ts[0]);
        lema_entradas_passo(ts.drop_first(), t, ini + 4 * ts[0].2);
        assert(entradas(ts.push(t), ini) =~= entradas(ts, ini) + entrada(t.0, t.1, ini + bytes_de_dados(ts), ini + bytes_de_dados(ts) + 4 * t.2));
    }
}

/// O cabeçalho, já com os espaços do alinhamento.
pub fn montar_cabecalho(tensores: &[(String, Vec<usize>, Vec<u32>)], metadados: &[(String, String)]) -> (r: String)
    requires
        bytes_de_dados(vista_tensores(tensores@)) <= u64::MAX,
    ensures
        r@ == cabecalho(vista_tensores(tensores@), vista_metadados(metadados@)),
{
    let ghost tv = vista_tensores(tensores@);
    let ghost mv = vista_metadados(metadados@);
    let mut j: Vec<char> = Vec::new();
    j.push('{');
    let mut inicio: u64 = 0;
    let mut i: usize = 0;
    assert(tv.take(0) =~= Seq::<(Seq<char>, Seq<usize>, nat)>::empty());
    while i < tensores.len()
        invariant
            i <= tensores@.len(),
            tv == vista_tensores(tensores@),
            bytes_de_dados(tv) <= u64::MAX,
            inicio == bytes_de_dados(tv.take(i as int)),
            j@ == seq!['{'] + entradas(tv.take(i as int), 0),
        decreases tensores.len() - i,
    {
        let (nome, forma, valores) = (&tensores[i].0, &tensores[i].1, &tensores[i].2);
        proof {
            assert(tv.take(i + 1) =~= tv.take(i as int).push(tv[i as int]));
            lema_entradas_passo(tv.take(i as int), tv[i as int], 0);
            lema_dados_prefixo(tv, i as int + 1);
        }
        let fim: u64 = inicio + 4 * (valores.len() as u64);
        acrescentar_str_vec(&mut j, "\"");
        let e = escapar(nome.as_str());
        acrescentar_str_vec(&mut j, e.as_str());
        acrescentar_str_vec(&mut j, "\":{\"dtype\":\"F32\",\"shape\":[");
        let l = lista_exec(forma.as_slice());
        crate::texto::acrescentar_vec(&mut j, l.as_slice());
        acrescentar_str_vec(&mut j, "],\"data_offsets\":[");
        escrever_decimal(inicio, &mut j);
        acrescentar_str_vec(&mut j, ",");
        escrever_decimal(fim, &mut j);
        acrescentar_str_vec(&mut j, "]},");
        inicio = fim;
        i = i + 1;
        assert(j@ =~= seq!['{'] + entradas(tv.take(i as int), 0));
    }
    assert(tv.take(tensores@.len() as int) =~= tv);
    acrescentar_str_vec(&mut j, "\"__metadata__\":{");
    let mut k: usize = 0;
    let ghost base = j@;
    assert(mv.take(0) =~= Seq::<(Seq<char>, Seq<char>)>::empty());
    while k < metadados.len()
        invariant
            k <= metadados@.len(),
            mv == vista_metadados(metadados@),
            j@ == base + metadados_de(mv.take(k as int)),
        decreases metadados.len() - k,
    {
        assert(mv.take(k + 1).drop_last() =~= mv.take(k as int));
        assert(mv.take(k + 1).last() == (metadados@[k as int].0@, metadados@[k as int].1@));
        if k > 0 {
            acrescentar_str_vec(&mut j, ",");
        }
        acrescentar_str_vec(&mut j, "\"");
        let a = escapar(metadados[k].0.as_str());
        acrescentar_str_vec(&mut j, a.as_str());
        acrescentar_str_vec(&mut j, "\":\"");
        let b = escapar(metadados[k].1.as_str());
        acrescentar_str_vec(&mut j, b.as_str());
        acrescentar_str_vec(&mut j, "\"");
        k = k + 1;
        assert(j@ =~= base + metadados_de(mv.take(k as int)));
    }
    assert(mv.take(metadados@.len() as int) =~= mv);
    acrescentar_str_vec(&mut j, "}}");
    assert(j@ =~= json(tv, mv));
    let s = string_de(j.as_slice());
    let n = s.as_str().as_bytes().len();
    let faltam = (8 - (n % 8)) % 8;
    let mut m: usize = 0;
    let ghost j0 = j@;
    while m < faltam
        invariant
            m <= faltam,
            faltam == espacos(encode_utf8(j0).len()),
            j@ == j0 + Seq::new(m as nat, |i: int| ' '),
        decreases faltam - m,
    {
        j.push(' ');
        m = m + 1;
        assert(j@ =~= j0 + Seq::new(m as nat, |i: int| ' '));
    }
    string_de(j.as_slice())
}

proof fn lema_dados_prefixo(tv: Seq<(Seq<char>, Seq<usize>, nat)>, i: int)
    requires
        0 <= i <= tv.len(),
    ensures
        bytes_de_dados(tv.take(i)) <= bytes_de_dados(tv),
    decreases tv.len(),
{
    if i == tv.len() {
        assert(tv.take(i) =~= tv);
    } else if i == 0 {
        assert(bytes_de_dados(tv.take(0)) == 0) by {
            assert(tv.take(0) =~= Seq::<(Seq<char>, Seq<usize>, nat)>::empty());
        }
    } else {
        assert(tv.take(i).drop_first() =~= tv.drop_first().take(i - 1));
        assert(tv.take(i)[0] == tv[0]);
        lema_dados_prefixo(tv.drop_first(), i - 1);
    }
}

fn acrescentar_str_vec(v: &mut Vec<char>, t: &str)
    ensures
        final(v)@ == old(v)@ + t@,
{
    let c = crate::texto::caracteres(t);
    crate::texto::acrescentar_vec(v, c.as_slice());
}

/// O arquivo safetensors inteiro: tamanho do cabeçalho, cabeçalho e dados. Os
/// valores entram como padrões de bits de `f32`.
pub fn bytes(tensores: &[(String, Vec<usize>, Vec<u32>)], metadados: &[(String, String)]) -> (r: Vec<u8>)
    requires
        bytes_de_dados(vista_tensores(tensores@)) <= u64::MAX,
    ensures
        r@ == arquivo(tensores@, metadados@),
{
    let c = montar_cabecalho(tensores, metadados);
    let cb = c.as_str().as_bytes();
    let n = cb.len() as u64;
    let mut out: Vec<u8> = Vec::new();
    let mut i: u64 = 0;
    while i < 8
        invariant
            i <= 8,
            out@.len() == i,
            forall|k: int| 0 <= k < i ==> #[trigger] out@[k] == u64le(n)[k],
        decreases 8 - i,
    {
        out.push(((n >> (8 * i)) & 0xff) as u8);
        i = i + 1;
    }
    assert(out@ =~= u64le(n));
    crate::texto::acrescentar_bytes(&mut out, cb);
    let ghost base = out@;
    let mut k: usize = 0;
    assert(tensores@.take(0) =~= Seq::<(String, Vec<usize>, Vec<u32>)>::empty());
    assert(out@ =~= base + dados(tensores@.take(0)));
    while k < tensores.len()
        invariant
            k <= tensores@.len(),
            out@ == base + dados(tensores@.take(k as int)),
        decreases tensores.len() - k,
    {
        assert(tensores@.take(k + 1).drop_last() =~= tensores@.take(k as int));
        crate::cerebro::escrever_palavras(&mut out, tensores[k].2.as_slice());
        k = k + 1;
        assert(out@ =~= base + dados(tensores@.take(k as int)));
    }
    assert(tensores@.take(tensores@.len() as int) =~= tensores@);
    out
}

} // verus!
