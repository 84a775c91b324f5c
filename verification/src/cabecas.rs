//! O placar das cabeças: quantos casos, quantas intenções, spans e bytes certos.
//!
//! As contagens somam de lote em lote; as acurácias são razões entre elas. E os
//! slots de argumento que as cabeças têm para cada ferramenta.
use vstd::prelude::*;
use crate::registro::{Param, Registro};

verus! {

/// Métricas do que interessa de verdade: se ela escolheu a ferramenta certa e
/// copiou os argumentos certos.
#[derive(Clone, Copy, Debug)]
pub struct Placar {
    pub n: usize,
    pub intencao_certa: usize,
    /// Nível grosseiro (patch). Auxiliar: serve para diagnosticar.
    pub spans_certos: usize,
    pub spans_totais: usize,
    /// Nível fino (byte). É este que decide se a chamada funciona.
    pub bytes_certos: usize,
    pub bytes_totais: usize,
    /// Ferramenta certa e todos os argumentos certos, no nível de byte.
    pub tudo_certo: usize,
    /// Argumentos certos entre os casos em que a ferramenta estava certa.
    pub bytes_certos_com_int_ok: usize,
    pub bytes_totais_com_int_ok: usize,
}

/// O placar com todas as contagens em zero.
pub open spec fn zero() -> Placar {
    Placar {
        n: 0,
        intencao_certa: 0,
        spans_certos: 0,
        spans_totais: 0,
        bytes_certos: 0,
        bytes_totais: 0,
        tudo_certo: 0,
        bytes_certos_com_int_ok: 0,
        bytes_totais_com_int_ok: 0,
    }
}

/// A soma campo a campo de dois placares, sem limite de tamanho.
pub open spec fn soma(a: Placar, b: Placar) -> (int, int, int, int, int, int, int, int, int) {
    (
        a.n + b.n,
        a.intencao_certa + b.intencao_certa,
        a.spans_certos + b.spans_certos,
        a.spans_totais + b.spans_totais,
        a.bytes_certos + b.bytes_certos,
        a.bytes_totais + b.bytes_totais,
        a.tudo_certo + b.tudo_certo,
        a.bytes_certos_com_int_ok + b.bytes_certos_com_int_ok,
        a.bytes_totais_com_int_ok + b.bytes_totais_com_int_ok,
    )
}

/// As contagens de um placar, na ordem dos campos.
pub open spec fn contagens(a: Placar) -> (int, int, int, int, int, int, int, int, int) {
    (
        a.n as int,
        a.intencao_certa as int,
        a.spans_certos as int,
        a.spans_totais as int,
        a.bytes_certos as int,
        a.bytes_totais as int,
        a.tudo_certo as int,
        a.bytes_certos_com_int_ok as int,
        a.bytes_totais_com_int_ok as int,
    )
}

/// A soma cabe em `usize` em todos os campos.
pub open spec fn cabe(a: Placar, b: Placar) -> bool {
    let s = soma(a, b);
    &&& s.0 <= usize::MAX
    &&& s.1 <= usize::MAX
    &&& s.2 <= usize::MAX
    &&& s.3 <= usize::MAX
    &&& s.4 <= usize::MAX
    &&& s.5 <= usize::MAX
    &&& s.6 <= usize::MAX
    &&& s.7 <= usize::MAX
    &&& s.8 <= usize::MAX
}

impl Default for Placar {
    fn default() -> (r: Self)
        ensures
            r == zero(),
    {
        Placar {
            n: 0,
            intencao_certa: 0,
            spans_certos: 0,
            spans_totais: 0,
            bytes_certos: 0,
            bytes_totais: 0,
            tudo_certo: 0,
            bytes_certos_com_int_ok: 0,
            bytes_totais_com_int_ok: 0,
        }
    }
}

impl Placar {
    /// Acumula outro placar neste, campo a campo.
    pub fn somar(&mut self, o: &Placar)
        requires
            cabe(*old(self), *o),
        ensures
            contagens(*final(self)) == soma(*old(self), *o),
    {
        self.n = self.n + o.n;
        self.intencao_certa = self.intencao_certa + o.intencao_certa;
        self.spans_certos = self.spans_certos + o.spans_certos;
        self.spans_totais = self.spans_totais + o.spans_totais;
        self.bytes_certos = self.bytes_certos + o.bytes_certos;
        self.bytes_totais = self.bytes_totais + o.bytes_totais;
        self.tudo_certo = self.tudo_certo + o.tudo_certo;
        self.bytes_certos_com_int_ok = self.bytes_certos_com_int_ok + o.bytes_certos_com_int_ok;
        self.bytes_totais_com_int_ok = self.bytes_totais_com_int_ok + o.bytes_totais_com_int_ok;
    }
}

/// Somar placares não depende da ordem: somar `b` a `a` dá o mesmo que somar
/// `a` a `b`.
pub proof fn lei_somar_comuta(a: Placar, b: Placar)
    ensures
        soma(a, b) == soma(b, a),
{
}

/// Somar lotes em qualquer agrupamento dá o mesmo total.
pub proof fn lei_somar_associa(a: Placar, b: Placar, c: Placar)
    ensures
        ({
            let ab = soma(a, b);
            let bc = soma(b, c);
            let c_ = contagens(c);
            let a_ = contagens(a);
            (ab.0 + c_.0, ab.1 + c_.1, ab.2 + c_.2, ab.3 + c_.3, ab.4 + c_.4, ab.5 + c_.5, ab.6
                + c_.6, ab.7 + c_.7, ab.8 + c_.8) == (a_.0 + bc.0, a_.1 + bc.1, a_.2 + bc.2, a_.3
                + bc.3, a_.4 + bc.4, a_.5 + bc.5, a_.6 + bc.6, a_.7 + bc.7, a_.8 + bc.8)
        }),
{
}

/// O placar zerado é o neutro da soma.
pub proof fn lei_zero_e_neutro(a: Placar)
    ensures
        soma(a, zero()) == contagens(a),
{
}

/// Quantos argumentos as cabeças conseguem apontar numa chamada.
pub const MAX_SLOTS: usize = 4;

/// Quantos parâmetros da lista são obrigatórios.
pub open spec fn n_obrigatorios(ps: Seq<Param>) -> nat
    decreases ps.len(),
{
    if ps.len() == 0 {
        0
    } else {
        n_obrigatorios(ps.drop_last()) + if ps.last().obrigatorio { 1nat } else { 0nat }
    }
}

pub open spec fn no_maximo(n: nat) -> usize {
    if n < MAX_SLOTS { n as usize } else { MAX_SLOTS }
}

proof fn lema_n_obrigatorios_limite(ps: Seq<Param>)
    ensures
        n_obrigatorios(ps) <= ps.len(),
    decreases ps.len(),
{
    if ps.len() > 0 {
        lema_n_obrigatorios_limite(ps.drop_last());
    }
}

/// Por ferramenta: `(quantos slots existem, quantos são obrigatórios)`, cada um
/// limitado a [`MAX_SLOTS`]. O obrigatório sempre entra na chamada; o opcional só
/// entra se a cabeça de presença disser que sim.
pub fn slots_por_ferramenta(reg: &Registro) -> (r: Vec<(usize, usize)>)
    ensures
        r@.len() == reg.ferramentas@.len(),
        forall|i: int| 0 <= i < r@.len() ==> #[trigger] r@[i] == (
            no_maximo(reg.ferramentas@[i].params@.len()),
            no_maximo(n_obrigatorios(reg.ferramentas@[i].params@)),
        ),
{
    let mut r: Vec<(usize, usize)> = Vec::new();
    let n = reg.ferramentas.len();
    let mut i: usize = 0;
    while i < n
        invariant
            i <= n,
            n == reg.ferramentas@.len(),
            r@.len() == i,
            forall|k: int| 0 <= k < i ==> #[trigger] r@[k] == (
                no_maximo(reg.ferramentas@[k].params@.len()),
                no_maximo(n_obrigatorios(reg.ferramentas@[k].params@)),
            ),
        decreases n - i,
    {
        let ps = &reg.ferramentas[i].params;
        let m = ps.len();
        let mut ob: usize = 0;
        let mut j: usize = 0;
        while j < m
            invariant
                j <= m,
                m == ps@.len(),
                ob == n_obrigatorios(ps@.take(j as int)),
            decreases m - j,
        {
            assert(ps@.take(j + 1).drop_last() =~= ps@.take(j as int));
            proof {
                lema_n_obrigatorios_limite(ps@.take(j as int));
            }
            if ps[j].obrigatorio {
                ob = ob + 1;
            }
            j = j + 1;
        }
        assert(ps@.take(m as int) =~= ps@);
        let a = if m < MAX_SLOTS { m } else { MAX_SLOTS };
        let b = if ob < MAX_SLOTS { ob } else { MAX_SLOTS };
        r.push((a, b));
        i = i + 1;
    }
    r
}

} // verus!
