//! Gerador pseudoaleatório determinístico: o splitmix64 espalha a semente e o
//! xorshift128+ produz a sequência.
//!
//! O estado são duas palavras; cada valor é função só da semente e de quantos
//! valores já foram sorteados, que é o que um experimento reproduzível precisa.
use vstd::prelude::*;
use vstd::wrapping::u64_specs::{wrapping_add, wrapping_mul};

verus! {

/// O incremento da razão áurea do splitmix64.
pub const DOURADO: u64 = 0x9E37_79B9_7F4A_7C15;

/// Uma mistura do splitmix64 sobre o contador já avançado.
pub open spec fn embaralhar(z: u64) -> u64 {
    let a = wrapping_mul(z ^ (z >> 30u64), 0xBF58_476D_1CE4_E5B9u64);
    let b = wrapping_mul(a ^ (a >> 27u64), 0x94D0_49BB_1331_11EBu64);
    b ^ (b >> 31u64)
}

/// O estado de partida de uma semente: as duas primeiras saídas do splitmix64.
pub open spec fn inicial(semente: u64) -> (u64, u64) {
    let z0 = wrapping_add(semente, DOURADO);
    let z1 = wrapping_add(z0, DOURADO);
    let z2 = wrapping_add(z1, DOURADO);
    (embaralhar(z1), embaralhar(z2))
}

/// Um passo do xorshift128+: o próximo estado e o valor que ele entrega.
pub open spec fn avancar(s: (u64, u64)) -> ((u64, u64), u64) {
    let x0 = s.0;
    let y = s.1;
    let x = x0 ^ (x0 << 23u64);
    let s1 = x ^ y ^ (x >> 17u64) ^ (y >> 26u64);
    ((y, s1), wrapping_add(s1, y))
}

/// O estado depois de sortear `n` valores de um gerador com a semente `semente`.
pub open spec fn estado_apos(semente: u64, n: nat) -> (u64, u64)
    decreases n,
{
    if n == 0 {
        inicial(semente)
    } else {
        avancar(estado_apos(semente, (n - 1) as nat)).0
    }
}

/// O `n`-ésimo valor (contando do 0) sorteado de um gerador com a semente `semente`.
pub open spec fn valor(semente: u64, n: nat) -> u64 {
    avancar(estado_apos(semente, n)).1
}

#[derive(Debug)]
pub struct Rng {
    s0: u64,
    s1: u64,
}

impl Rng {
    /// As duas palavras do estado.
    pub closed spec fn estado(&self) -> (u64, u64) {
        (self.s0, self.s1)
    }

    fn misturar(z: u64) -> (r: u64)
        ensures
            r == embaralhar(z),
    {
        let mut x = z;
        x = (x ^ (x >> 30)).wrapping_mul(0xBF58_476D_1CE4_E5B9);
        x = (x ^ (x >> 27)).wrapping_mul(0x94D0_49BB_1331_11EB);
        x ^ (x >> 31)
    }

    pub fn new(seed: u64) -> (r: Rng)
        ensures
            r.estado() == inicial(seed),
    {
        let z0 = seed.wrapping_add(DOURADO);
        let z1 = z0.wrapping_add(DOURADO);
        let a = Self::misturar(z1);
        let z2 = z1.wrapping_add(DOURADO);
        let b = Self::misturar(z2);
        Rng { s0: a, s1: b }
    }

    pub fn next_u64(&mut self) -> (r: u64)
        ensures
            final(self).estado() == avancar(old(self).estado()).0,
            r == avancar(old(self).estado()).1,
    {
        let mut x = self.s0;
        let y = self.s1;
        self.s0 = y;
        x = x ^ (x << 23);
        self.s1 = x ^ y ^ (x >> 17) ^ (y >> 26);
        self.s1.wrapping_add(y)
    }
}

/// Um gerador com a semente `semente`, depois de `n` sorteios, está no mesmo estado
/// que qualquer outro com essa semente depois de `n` sorteios, e o próximo sorteio é
/// o `n`-ésimo valor da sequência dessa semente.
pub proof fn lei_a_semente_decide_a_sequencia(semente: u64, n: nat)
    ensures
        avancar(estado_apos(semente, n)).0 == estado_apos(semente, n + 1),
        avancar(estado_apos(semente, n)).1 == valor(semente, n),
{
}

/// Os `n` valores que um gerador no estado `s` entrega, em ordem.
pub open spec fn sorteios(s: (u64, u64), n: nat) -> Seq<u64>
    decreases n,
{
    if n == 0 {
        seq![]
    } else {
        seq![avancar(s).1] + sorteios(avancar(s).0, (n - 1) as nat)
    }
}

proof fn lema_sorteios_de_qualquer_ponto(semente: u64, k: nat, n: nat)
    ensures
        sorteios(estado_apos(semente, k), n) == Seq::new(n, |i: int| valor(semente, k + i as nat)),
    decreases n,
{
    if n > 0 {
        lema_sorteios_de_qualquer_ponto(semente, k + 1, (n - 1) as nat);
        assert(estado_apos(semente, k + 1) == avancar(estado_apos(semente, k)).0);
        let a = sorteios(estado_apos(semente, k), n);
        let b = Seq::new(n, |i: int| valor(semente, k + i as nat));
        assert forall|i: int| 0 <= i < n implies a[i] == b[i] by {
            if i > 0 {
                assert(a[i] == sorteios(estado_apos(semente, k + 1), (n - 1) as nat)[i - 1]);
                assert(k + 1 + (i - 1) as nat == k + i as nat);
            }
        }
        assert(a =~= b);
    }
}

/// A semente decide a sequência inteira: um gerador novo com a semente `semente`
/// entrega, em `n` sorteios, os valores `0..n` da sequência dessa semente — dois
/// geradores com a mesma semente entregam os mesmos `n` valores, para todo `n`.
pub proof fn lei_mesma_semente_mesma_sequencia(semente: u64, n: nat)
    ensures
        sorteios(inicial(semente), n) == Seq::new(n, |i: int| valor(semente, i as nat)),
{
    lema_sorteios_de_qualquer_ponto(semente, 0, n);
    assert(estado_apos(semente, 0) == inicial(semente));
    assert(Seq::new(n, |i: int| valor(semente, 0 + i as nat)) =~= Seq::new(n, |i: int| valor(semente, i as nat)));
}

} // verus!
