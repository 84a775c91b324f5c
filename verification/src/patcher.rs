//! O patcher: agrupa bytes em patches para o backbone rodar menos vezes.
//!
//! Um patcher devolve o fim exclusivo de cada patch. Toda regra aqui varre os
//! bytes da esquerda para a direita e decide, em cada posição `i`, se um patch
//! novo começa ali, sabendo onde começou o patch atual. O último fim é sempre o
//! comprimento da entrada.
//!
//! `PorPalavra` quebra no início de cada corrida de espaço em branco, com teto:
//! cada patch fica "espaço + palavra". `PorClasse` quebra em toda mudança de
//! classe de byte. `Fixo` corta a cada `p` bytes. A regra por surpresa acrescenta
//! às fronteiras de palavra um corte onde o próximo byte surpreende — quem mede a
//! surpresa é quem chama.
use vstd::prelude::*;

verus! {

/// Classe grosseira de um byte: 0 espaço, 1 letra, 2 dígito, 3 o resto. Bytes
/// `>= 0x80` contam como letra: em UTF-8 são pedaço de caractere acentuado.
pub open spec fn classe_de(b: u8) -> u8 {
    if b == 9 || b == 10 || b == 13 || b == 32 {
        0
    } else if 48 <= b <= 57 {
        2
    } else if (97 <= b <= 122) || (65 <= b <= 90) {
        1
    } else if b >= 0x80 {
        1
    } else {
        3
    }
}

pub fn classe(b: u8) -> (r: u8)
    ensures
        r == classe_de(b),
{
    if b == 9 || b == 10 || b == 13 || b == 32 {
        0
    } else if 48 <= b && b <= 57 {
        2
    } else if (97 <= b && b <= 122) || (65 <= b && b <= 90) {
        1
    } else if b >= 0x80 {
        1
    } else {
        3
    }
}

/// `f` são fins de patch que cobrem `n` bytes: vazio só para entrada vazia,
/// estritamente crescentes, e o último é `n`.
pub open spec fn cobre(n: nat, f: Seq<usize>) -> bool {
    &&& (n == 0 <==> f.len() == 0)
    &&& (f.len() > 0 ==> f.last() == n)
    &&& forall|i: int, j: int| 0 <= i < j < f.len() ==> f[i] < f[j]
    &&& forall|i: int| 0 <= i < f.len() ==> 0 < #[trigger] f[i] <= n
}

/// Nenhum patch passa de `max` bytes.
pub open spec fn no_teto(f: Seq<usize>, max: int) -> bool {
    forall|k: int| 0 <= k < f.len() ==> #[trigger] f[k] - (if k == 0 { 0 } else { f[k - 1] as int }) <= max
}

// ───────────────────────────── a varredura

/// As fronteiras internas escolhidas nas posições `1..n` por `corta(i, inicio)`,
/// onde `inicio` é onde começou o patch atual; e o começo do último patch.
pub open spec fn varrer(n: int, corta: spec_fn(int, int) -> bool) -> (Seq<usize>, int)
    decreases n,
{
    if n <= 1 {
        (Seq::empty(), 0)
    } else {
        let p = varrer(n - 1, corta);
        if corta(n - 1, p.1) {
            (p.0.push((n - 1) as usize), n - 1)
        } else {
            p
        }
    }
}

/// As fronteiras de `n` bytes: as internas e o fim.
pub open spec fn fins(n: nat, corta: spec_fn(int, int) -> bool) -> Seq<usize> {
    if n == 0 {
        Seq::empty()
    } else {
        varrer(n as int, corta).0.push(n as usize)
    }
}

proof fn lema_varrer(n: int, corta: spec_fn(int, int) -> bool)
    requires
        1 <= n <= usize::MAX,
    ensures
        0 <= varrer(n, corta).1 < n,
        varrer(n, corta).0.len() == 0 ==> varrer(n, corta).1 == 0,
        varrer(n, corta).0.len() > 0 ==> varrer(n, corta).1 == varrer(n, corta).0.last(),
        forall|k: int|
            0 <= k < varrer(n, corta).0.len() ==> 1 <= #[trigger] varrer(n, corta).0[k] < n,
        forall|i: int, j: int|
            0 <= i < j < varrer(n, corta).0.len() ==> varrer(n, corta).0[i] < varrer(n, corta).0[j],
    decreases n,
{
    if n > 1 {
        lema_varrer(n - 1, corta);
    }
}

/// Qualquer regra de corte dá fronteiras que cobrem a entrada.
pub proof fn lema_fins_cobrem(n: nat, corta: spec_fn(int, int) -> bool)
    requires
        n <= usize::MAX,
    ensures
        cobre(n, fins(n, corta)),
{
    if n > 0 {
        lema_varrer(n as int, corta);
        let c = varrer(n as int, corta).0;
        let f = fins(n, corta);
        assert forall|i: int, j: int| 0 <= i < j < f.len() implies f[i] < f[j] by {
            if j < c.len() {
                assert(f[i] == c[i] && f[j] == c[j]);
            } else {
                assert(f[i] == c[i]);
            }
        }
        assert forall|i: int| 0 <= i < f.len() implies 0 < #[trigger] f[i] <= n by {
            if i < c.len() {
                assert(f[i] == c[i]);
            }
        }
    }
}

/// Com uma regra que sempre corta quando o patch atual chega a `max` bytes,
/// nenhum patch passa de `max`.
pub proof fn lema_fins_no_teto(n: nat, corta: spec_fn(int, int) -> bool, max: int)
    requires
        n <= usize::MAX,
        max >= 1,
        forall|i: int, ini: int| i - ini >= max ==> #[trigger] corta(i, ini),
    ensures
        no_teto(fins(n, corta), max),
{
    if n > 0 {
        lema_varrer_no_teto(n as int, corta, max);
        lema_varrer(n as int, corta);
        let c = varrer(n as int, corta).0;
        let f = fins(n, corta);
        assert forall|k: int| 0 <= k < f.len() implies #[trigger] f[k] - (if k == 0 {
            0
        } else {
            f[k - 1] as int
        }) <= max by {
            if k < c.len() {
                assert(f[k] == c[k]);
                if k > 0 {
                    assert(f[k - 1] == c[k - 1]);
                }
            } else if k > 0 {
                assert(f[k - 1] == c[k - 1]);
            }
        }
    }
}

proof fn lema_varrer_no_teto(n: int, corta: spec_fn(int, int) -> bool, max: int)
    requires
        1 <= n <= usize::MAX,
        max >= 1,
        forall|i: int, ini: int| i - ini >= max ==> #[trigger] corta(i, ini),
    ensures
        n - varrer(n, corta).1 <= max,
        no_teto(varrer(n, corta).0, max),
    decreases n,
{
    if n > 1 {
        lema_varrer_no_teto(n - 1, corta, max);
        lema_varrer(n - 1, corta);
        let p = varrer(n - 1, corta);
        if corta(n - 1, p.1) {
            let c = p.0.push((n - 1) as usize);
            assert forall|k: int| 0 <= k < c.len() implies #[trigger] c[k] - (if k == 0 {
                0
            } else {
                c[k - 1] as int
            }) <= max by {
                if k < p.0.len() {
                    assert(c[k] == p.0[k]);
                    if k > 0 {
                        assert(c[k - 1] == p.0[k - 1]);
                    }
                } else if k > 0 {
                    assert(c[k - 1] == p.0[k - 1]);
                }
            }
        } else {
            assert(!corta(n - 1, p.1));
        }
    }
}

/// Uma posição onde a regra corta qualquer que seja o começo do patch atual é
/// sempre fronteira.
pub proof fn lema_sempre_corta(n: int, corta: spec_fn(int, int) -> bool, i: int)
    requires
        1 <= i < n,
        forall|ini: int| #[trigger] corta(i, ini),
    ensures
        varrer(n, corta).0.contains(i as usize),
    decreases n,
{
    let p = varrer(n - 1, corta);
    if i == n - 1 {
        assert(corta(n - 1, p.1));
        assert(varrer(n, corta).0.last() == i as usize);
    } else {
        lema_sempre_corta(n - 1, corta, i);
        let k = choose|k: int| 0 <= k < p.0.len() && p.0[k] == i as usize;
        if corta(n - 1, p.1) {
            assert(varrer(n, corta).0[k] == i as usize);
        }
    }
}

/// Duas regras que concordam em toda posição da entrada dão as mesmas fronteiras.
pub proof fn lema_mesma_regra(n: int, a: spec_fn(int, int) -> bool, b: spec_fn(int, int) -> bool)
    requires
        forall|i: int, ini: int| 1 <= i < n ==> #[trigger] a(i, ini) == b(i, ini),
    ensures
        varrer(n, a) == varrer(n, b),
    decreases n,
{
    if n > 1 {
        lema_mesma_regra(n - 1, a, b);
        let p = varrer(n - 1, a);
        assert(a(n - 1, p.1) == b(n - 1, p.1));
    }
}

/// Cada fronteira interna foi escolhida pela regra, sabendo onde começava o
/// patch anterior.
pub proof fn lema_cada_corte(n: int, corta: spec_fn(int, int) -> bool, k: int)
    requires
        1 <= n <= usize::MAX,
        0 <= k < varrer(n, corta).0.len(),
    ensures
        corta(
            varrer(n, corta).0[k] as int,
            if k == 0 {
                0
            } else {
                varrer(n, corta).0[k - 1] as int
            },
        ),
    decreases n,
{
    if n > 1 {
        let p = varrer(n - 1, corta);
        lema_varrer(n - 1, corta);
        if k < p.0.len() {
            lema_cada_corte(n - 1, corta, k);
            if corta(n - 1, p.1) {
                assert(varrer(n, corta).0[k] == p.0[k]);
                if k > 0 {
                    assert(varrer(n, corta).0[k - 1] == p.0[k - 1]);
                }
            }
        } else {
            assert(corta(n - 1, p.1));
            if k > 0 {
                assert(varrer(n, corta).0[k - 1] == p.0[k - 1]);
            }
        }
    }
}

/// Uma regra que não corta em lugar nenhum da entrada deixa um patch só.
pub proof fn lema_nunca_corta(n: int, corta: spec_fn(int, int) -> bool)
    requires
        1 <= n <= usize::MAX,
        forall|i: int, ini: int| 0 <= ini < i < n ==> !#[trigger] corta(i, ini),
    ensures
        varrer(n, corta).0.len() == 0,
        varrer(n, corta).1 == 0,
    decreases n,
{
    if n > 1 {
        lema_nunca_corta(n - 1, corta);
        assert(!corta(n - 1, 0));
    }
}

// ───────────────────────────── o contrato de todo patcher

pub trait Patcher {
    /// As fronteiras que este patcher dá a `bytes`.
    spec fn corte(&self, bytes: Seq<u8>) -> Seq<usize>;

    /// As entradas sobre as quais a varredura termina.
    spec fn aceita(&self, bytes: Seq<u8>) -> bool;

    /// O nome com que o patcher aparece nos relatórios.
    spec fn nome_de(&self) -> Seq<char>;

    fn nome(&self) -> (r: &'static str)
        ensures
            r@ == self.nome_de(),
    ;

    /// Preenche `fim` com o fim exclusivo de cada patch, cobrindo `bytes` inteiro.
    fn fronteiras(&self, bytes: &[u8], fim: &mut Vec<usize>)
        requires
            self.aceita(bytes@),
        ensures
            final(fim)@ == self.corte(bytes@),
            cobre(bytes@.len(), final(fim)@),
    ;
}

/// Começa uma corrida de espaço em branco na posição `i`.
pub open spec fn comeca_espaco(b: Seq<u8>, i: int) -> bool {
    classe_de(b[i]) == 0 && classe_de(b[i - 1]) != 0
}

/// A regra de [`PorPalavra`]: no início de espaço em branco, ou no teto.
pub open spec fn corta_palavra(b: Seq<u8>, max: int) -> spec_fn(int, int) -> bool {
    |i: int, ini: int| comeca_espaco(b, i) || i - ini >= max
}

/// Quebra no início de cada corrida de espaço em branco, com teto de `max`:
/// cada patch fica "espaço + palavra".
#[derive(Clone, Copy, Debug)]
pub struct PorPalavra {
    pub max: usize,
}

impl Default for PorPalavra {
    fn default() -> (r: Self)
        ensures
            r.max == 8,
    {
        PorPalavra { max: 8 }
    }
}

impl Patcher for PorPalavra {
    open spec fn corte(&self, bytes: Seq<u8>) -> Seq<usize> {
        fins(bytes.len(), corta_palavra(bytes, self.max as int))
    }

    open spec fn aceita(&self, bytes: Seq<u8>) -> bool {
        true
    }

    open spec fn nome_de(&self) -> Seq<char> {
        "por_palavra"@
    }

    fn nome(&self) -> (r: &'static str) {
        "por_palavra"
    }

    fn fronteiras(&self, bytes: &[u8], fim: &mut Vec<usize>) {
        let ghost corta = corta_palavra(bytes@, self.max as int);
        fim.clear();
        if bytes.len() == 0 {
            return;
        }
        let mut inicio: usize = 0;
        let mut i: usize = 1;
        while i < bytes.len()
            invariant
                1 <= i <= bytes@.len(),
                corta == corta_palavra(bytes@, self.max as int),
                fim@ == varrer(i as int, corta).0,
                inicio == varrer(i as int, corta).1,
            decreases bytes.len() - i,
        {
            proof {
                lema_varrer(i as int, corta);
            }
            let esp = classe(bytes[i]) == 0 && classe(bytes[i - 1]) != 0;
            if esp || i - inicio >= self.max {
                fim.push(i);
                inicio = i;
            }
            i = i + 1;
        }
        fim.push(bytes.len());
        proof {
            lema_fins_cobrem(bytes@.len(), corta);
        }
    }
}

/// A regra de [`PorClasse`]: na mudança de classe, ou no teto.
pub open spec fn corta_classe(b: Seq<u8>, max: int) -> spec_fn(int, int) -> bool {
    |i: int, ini: int| classe_de(b[i]) != classe_de(b[ini]) || i - ini >= max
}

/// Quebra a cada mudança de classe de byte, com teto de `max`.
#[derive(Clone, Copy, Debug)]
pub struct PorClasse {
    pub max: usize,
}

impl Default for PorClasse {
    fn default() -> (r: Self)
        ensures
            r.max == 8,
    {
        PorClasse { max: 8 }
    }
}

impl Patcher for PorClasse {
    open spec fn corte(&self, bytes: Seq<u8>) -> Seq<usize> {
        fins(bytes.len(), corta_classe(bytes, self.max as int))
    }

    open spec fn aceita(&self, bytes: Seq<u8>) -> bool {
        true
    }

    open spec fn nome_de(&self) -> Seq<char> {
        "por_classe"@
    }

    fn nome(&self) -> (r: &'static str) {
        "por_classe"
    }

    fn fronteiras(&self, bytes: &[u8], fim: &mut Vec<usize>) {
        let ghost corta = corta_classe(bytes@, self.max as int);
        fim.clear();
        if bytes.len() == 0 {
            return;
        }
        let mut inicio: usize = 0;
        let mut cl = classe(bytes[0]);
        let mut i: usize = 1;
        while i < bytes.len()
            invariant
                1 <= i <= bytes@.len(),
                corta == corta_classe(bytes@, self.max as int),
                fim@ == varrer(i as int, corta).0,
                inicio == varrer(i as int, corta).1,
                inicio < bytes@.len(),
                cl == classe_de(bytes@[inicio as int]),
            decreases bytes.len() - i,
        {
            proof {
                lema_varrer(i as int, corta);
            }
            let c = classe(bytes[i]);
            if c != cl || i - inicio >= self.max {
                fim.push(i);
                inicio = i;
                cl = c;
            }
            i = i + 1;
        }
        fim.push(bytes.len());
        proof {
            lema_fins_cobrem(bytes@.len(), corta);
        }
    }
}

/// A regra de [`Fixo`]: em todo múltiplo de `p`.
pub open spec fn corta_fixo(p: int) -> spec_fn(int, int) -> bool {
    |i: int, ini: int| i % p == 0
}

/// Patches de tamanho fixo.
#[derive(Clone, Copy, Debug)]
pub struct Fixo {
    pub p: usize,
}

pub open spec fn multiplo(m: int, p: int) -> bool {
    m % p == 0
}

proof fn lema_fixo_sem_multiplo(a: int, b: int, p: int)
    requires
        1 <= a <= b,
        p > 0,
        forall|m: int| a <= m < b ==> !#[trigger] multiplo(m, p),
    ensures
        varrer(b, corta_fixo(p)).0 == varrer(a, corta_fixo(p)).0,
    decreases b - a,
{
    if b > a {
        lema_fixo_sem_multiplo(a, b - 1, p);
        assert(!multiplo(b - 1, p));
    }
}

proof fn lema_entre_multiplos(i: int, m: int, p: int)
    by (nonlinear_arith)
    requires
        p > 0,
        i % p == 0,
        i < m < i + p,
    ensures
        m % p != 0,
{
}

proof fn lema_proximo_multiplo(i: int, p: int)
    by (nonlinear_arith)
    requires
        p > 0,
        i % p == 0,
    ensures
        (i + p) % p == 0,
{
}

impl Patcher for Fixo {
    open spec fn corte(&self, bytes: Seq<u8>) -> Seq<usize> {
        fins(bytes.len(), corta_fixo(self.p as int))
    }

    /// Com `p == 0` o corte nunca avança: só a entrada vazia termina.
    open spec fn aceita(&self, bytes: Seq<u8>) -> bool {
        self.p > 0 || bytes.len() == 0
    }

    open spec fn nome_de(&self) -> Seq<char> {
        "fixo"@
    }

    fn nome(&self) -> (r: &'static str) {
        "fixo"
    }

    fn fronteiras(&self, bytes: &[u8], fim: &mut Vec<usize>) {
        let ghost corta = corta_fixo(self.p as int);
        fim.clear();
        if bytes.len() == 0 {
            return;
        }
        let p = self.p;
        let mut i: usize = p;
        assert(i % p == 0) by (nonlinear_arith)
            requires
                i == p,
                p > 0,
        ;
        proof {
            assert forall|m: int| 1 <= m < i implies !multiplo(m, p as int) by {
                lema_entre_multiplos(0, m, p as int);
            }
            lema_fixo_sem_multiplo(1, i as int, p as int);
        }
        while i < bytes.len()
            invariant
                p == self.p,
                p > 0,
                corta == corta_fixo(p as int),
                1 <= i,
                p <= i,
                i % p == 0,
                i - p < bytes@.len(),
                fim@ == varrer(i as int, corta).0,
            decreases bytes.len() + p - i,
        {
            fim.push(i);
            assert(fim@ == varrer(i + 1, corta).0);
            proof {
                lema_proximo_multiplo(i as int, p as int);
                assert forall|m: int| i + 1 <= m < i + p implies !multiplo(m, p as int) by {
                    lema_entre_multiplos(i as int, m, p as int);
                }
            }
            match i.checked_add(p) {
                Some(j) => {
                    proof {
                        lema_fixo_sem_multiplo(i + 1, j as int, p as int);
                    }
                    i = j;
                },
                None => {
                    proof {
                        lema_fixo_sem_multiplo(i + 1, bytes@.len() as int, p as int);
                    }
                    fim.push(bytes.len());
                    proof {
                        lema_fins_cobrem(bytes@.len(), corta);
                    }
                    return;
                },
            }
        }
        proof {
            assert forall|m: int| bytes@.len() <= m < i implies !multiplo(m, p as int) by {
                assert(((i - p) as int) % (p as int) == 0) by (nonlinear_arith)
                    requires
                        i % p == 0,
                        i >= p,
                        p > 0,
                ;
                lema_entre_multiplos((i - p) as int, m, p as int);
            }
            lema_fixo_sem_multiplo(bytes@.len() as int, i as int, p as int);
        }
        fim.push(bytes.len());
        proof {
            lema_fins_cobrem(bytes@.len(), corta);
        }
    }
}

// ───────────────────────────── fronteira por surpresa

/// A regra por surpresa: as fronteiras de palavra e o teto continuam; além
/// delas, corta antes do byte `i` quando prevê-lo surpreendeu (`s[i - 1]`) e o
/// patch atual já tem `min` bytes.
pub open spec fn corta_surpresa(b: Seq<u8>, s: Seq<bool>, max: int, min: int) -> spec_fn(int, int) -> bool {
    |i: int, ini: int| comeca_espaco(b, i) || i - ini >= max || (s[i - 1] && i - ini >= min)
}

/// As fronteiras da regra por surpresa. `surpreende[i]` diz se o byte `i + 1`
/// foi difícil de prever; quem mede isso é quem chama.
pub fn fronteiras_por_surpresa(
    bytes: &[u8],
    surpreende: &[bool],
    max: usize,
    min: usize,
    fim: &mut Vec<usize>,
)
    requires
        surpreende@.len() == bytes@.len(),
    ensures
        final(fim)@ == fins(bytes@.len(), corta_surpresa(bytes@, surpreende@, max as int, min as int)),
        cobre(bytes@.len(), final(fim)@),
{
    let ghost corta = corta_surpresa(bytes@, surpreende@, max as int, min as int);
    fim.clear();
    if bytes.len() == 0 {
        return;
    }
    let mut inicio: usize = 0;
    let mut i: usize = 1;
    while i < bytes.len()
        invariant
            1 <= i <= bytes@.len(),
            surpreende@.len() == bytes@.len(),
            corta == corta_surpresa(bytes@, surpreende@, max as int, min as int),
            fim@ == varrer(i as int, corta).0,
            inicio == varrer(i as int, corta).1,
        decreases bytes.len() - i,
    {
        proof {
            lema_varrer(i as int, corta);
        }
        let esp = classe(bytes[i]) == 0 && classe(bytes[i - 1]) != 0;
        let no_teto = i - inicio >= max;
        let surpresa = surpreende[i - 1] && i - inicio >= min;
        if esp || no_teto || surpresa {
            fim.push(i);
            inicio = i;
        }
        i = i + 1;
    }
    fim.push(bytes.len());
    proof {
        lema_fins_cobrem(bytes@.len(), corta);
    }
}

// ───────────────────────────── o que as regras garantem

/// Com teto de ao menos um byte, nenhum patch de [`PorPalavra`] passa do teto.
pub proof fn lei_por_palavra_respeita_o_teto(p: PorPalavra, bytes: Seq<u8>)
    requires
        p.max >= 1,
        bytes.len() <= usize::MAX,
    ensures
        no_teto(p.corte(bytes), p.max as int),
{
    lema_fins_no_teto(bytes.len(), corta_palavra(bytes, p.max as int), p.max as int);
}

/// Com teto de ao menos um byte, nenhum patch de [`PorClasse`] passa do teto.
pub proof fn lei_por_classe_respeita_o_teto(p: PorClasse, bytes: Seq<u8>)
    requires
        p.max >= 1,
        bytes.len() <= usize::MAX,
    ensures
        no_teto(p.corte(bytes), p.max as int),
{
    lema_fins_no_teto(bytes.len(), corta_classe(bytes, p.max as int), p.max as int);
}

/// [`PorPalavra`] quebra no início de toda corrida de espaço em branco. É isso
/// que faz a fronteira entre um pedido e o preenchimento do lote cair numa
/// fronteira de patch.
pub proof fn lei_por_palavra_quebra_no_espaco(p: PorPalavra, bytes: Seq<u8>, i: int)
    requires
        1 <= i < bytes.len(),
        comeca_espaco(bytes, i),
    ensures
        p.corte(bytes).contains(i as usize),
{
    let corta = corta_palavra(bytes, p.max as int);
    lema_sempre_corta(bytes.len() as int, corta, i);
    let c = varrer(bytes.len() as int, corta).0;
    let k = choose|k: int| 0 <= k < c.len() && c[k] == i as usize;
    assert(p.corte(bytes)[k] == i as usize);
}

/// A surpresa só acrescenta fronteira: toda fronteira de palavra sobrevive a ela.
pub proof fn lei_surpresa_nunca_remove_fronteira_de_palavra(
    bytes: Seq<u8>,
    s: Seq<bool>,
    max: int,
    min: int,
    i: int,
)
    requires
        1 <= i < bytes.len(),
        comeca_espaco(bytes, i),
    ensures
        fins(bytes.len(), corta_surpresa(bytes, s, max, min)).contains(i as usize),
{
    let corta = corta_surpresa(bytes, s, max, min);
    lema_sempre_corta(bytes.len() as int, corta, i);
    let c = varrer(bytes.len() as int, corta).0;
    let k = choose|k: int| 0 <= k < c.len() && c[k] == i as usize;
    assert(fins(bytes.len(), corta)[k] == i as usize);
}

/// Sem nenhuma surpresa, a regra por surpresa dá exatamente as fronteiras de
/// [`PorPalavra`] com o mesmo teto.
pub proof fn lei_sem_surpresa_e_por_palavra(bytes: Seq<u8>, s: Seq<bool>, max: usize, min: int)
    requires
        forall|i: int| 0 <= i < s.len() ==> !#[trigger] s[i],
        s.len() == bytes.len(),
    ensures
        fins(bytes.len(), corta_surpresa(bytes, s, max as int, min)) == (PorPalavra { max }).corte(
            bytes,
        ),
{
    let a = corta_surpresa(bytes, s, max as int, min);
    let b = corta_palavra(bytes, max as int);
    assert forall|i: int, ini: int| 1 <= i < bytes.len() implies #[trigger] a(i, ini) == b(i, ini) by {
        assert(!s[i - 1]);
    }
    lema_mesma_regra(bytes.len() as int, a, b);
}

/// Uma entrada de uma classe só, que cabe no teto, vira um patch só em
/// [`PorClasse`]: um caractere acentuado nunca é partido no meio.
pub proof fn lei_uma_classe_um_patch(p: PorClasse, bytes: Seq<u8>)
    requires
        0 < bytes.len() <= p.max,
        forall|i: int| 0 <= i < bytes.len() ==> classe_de(#[trigger] bytes[i]) == classe_de(bytes[0]),
    ensures
        p.corte(bytes) == seq![bytes.len() as usize],
{
    let corta = corta_classe(bytes, p.max as int);
    assert forall|i: int, ini: int| 0 <= ini < i < bytes.len() implies !#[trigger] corta(i, ini) by {
        assert(classe_de(bytes[i]) == classe_de(bytes[0]));
        assert(classe_de(bytes[ini]) == classe_de(bytes[0]));
    }
    lema_nunca_corta(bytes.len() as int, corta);
    assert(p.corte(bytes) =~= seq![bytes.len() as usize]);
}

/// Toda fronteira interna de [`PorClasse`] é uma mudança de classe ou o teto.
pub proof fn lei_por_classe_so_quebra_com_motivo(p: PorClasse, bytes: Seq<u8>, k: int)
    requires
        0 < bytes.len() <= usize::MAX,
        0 <= k < p.corte(bytes).len() - 1,
    ensures
        ({
            let f = p.corte(bytes);
            let ini: int = if k == 0 { 0 } else { f[k - 1] as int };
            classe_de(bytes[f[k] as int]) != classe_de(bytes[ini]) || f[k] - ini >= p.max
        }),
{
    let corta = corta_classe(bytes, p.max as int);
    let c = varrer(bytes.len() as int, corta).0;
    lema_cada_corte(bytes.len() as int, corta, k);
    assert(p.corte(bytes)[k] == c[k]);
    if k > 0 {
        assert(p.corte(bytes)[k - 1] == c[k - 1]);
    }
}

// ───────────────────────────── o plano de um lote

/// Posição de preenchimento: não há patch ali.
pub const SEM_PATCH: usize = usize::MAX;

/// Os bytes da sequência `b` de um lote guardado *time-major* (`bytes[t·batch + b]`).
pub open spec fn coluna(bytes: Seq<u8>, seq: int, batch: int, b: int) -> Seq<u8> {
    Seq::new(seq as nat, |t: int| bytes[t * batch + b])
}

/// O lote visto por posição: a entrada `k` é a da sequência `k % batch` no
/// instante `k / batch`.
pub open spec fn entrelacado<T>(cols: Seq<Seq<T>>, n: nat, batch: nat) -> Seq<T> {
    Seq::new(n * batch, |k: int| cols[k % (batch as int)][k / (batch as int)])
}

/// O patch a que pertence o byte `t`: quantos fins já ficaram para trás.
pub open spec fn patch_de(f: Seq<usize>, t: int) -> int
    decreases f.len(),
{
    if f.len() == 0 {
        0
    } else if f[0] <= t {
        1 + patch_de(f.drop_first(), t)
    } else {
        0
    }
}

/// O patch de contexto do byte `t`: o último **completo** quando `t` é lido.
pub open spec fn contexto(f: Seq<usize>, t: int) -> usize {
    let pi = patch_de(f, t);
    if pi < f.len() && f[pi] == t + 1 {
        pi as usize
    } else if pi == 0 {
        SEM_PATCH
    } else {
        (pi - 1) as usize
    }
}

/// O último byte de cada patch da sequência, e `SEM_PATCH` até `p_max`.
pub open spec fn col_ultimo(f: Seq<usize>, p_max: nat) -> Seq<usize> {
    Seq::new(p_max, |pi: int| if pi < f.len() { (f[pi] - 1) as usize } else { SEM_PATCH })
}

pub open spec fn col_contexto(f: Seq<usize>, seq: nat) -> Seq<usize> {
    Seq::new(seq, |t: int| contexto(f, t))
}

pub open spec fn col_patch(f: Seq<usize>, seq: nat) -> Seq<usize> {
    Seq::new(seq, |t: int| patch_de(f, t) as usize)
}

/// Espaço em branco ASCII, como o plano o entende ao marcar palavras.
pub open spec fn e_branco_byte(c: u8) -> bool {
    c == 32 || c == 9 || c == 10 || c == 13
}

/// Este byte abre uma palavra?
pub open spec fn col_abre(c: Seq<u8>) -> Seq<bool> {
    Seq::new(c.len(), |t: int| !e_branco_byte(c[t]) && (t == 0 || e_branco_byte(c[t - 1])))
}

/// Este byte fecha uma palavra?
pub open spec fn col_fecha(c: Seq<u8>) -> Seq<bool> {
    Seq::new(
        c.len(),
        |t: int| !e_branco_byte(c[t]) && (t + 1 == c.len() || e_branco_byte(c[t + 1])),
    )
}

/// O maior valor; zero para a sequência vazia.
pub open spec fn maximo(s: Seq<usize>) -> usize
    decreases s.len(),
{
    if s.len() == 0 {
        0
    } else {
        let m = maximo(s.drop_last());
        if s.last() > m {
            s.last()
        } else {
            m
        }
    }
}

proof fn lema_maximo(s: Seq<usize>, teto: int)
    requires
        forall|i: int| 0 <= i < s.len() ==> #[trigger] s[i] <= teto,
        teto >= 0,
    ensures
        maximo(s) <= teto,
        forall|i: int| 0 <= i < s.len() ==> #[trigger] s[i] <= maximo(s),
    decreases s.len(),
{
    if s.len() > 0 {
        lema_maximo(s.drop_last(), teto);
        assert forall|i: int| 0 <= i < s.len() implies #[trigger] s[i] <= maximo(s) by {
            if i < s.len() - 1 {
                assert(s[i] == s.drop_last()[i]);
            }
        }
    }
}

/// Fins que cobrem `n` bytes são no máximo `n`, e o `k`-ésimo fim é pelo menos `k + 1`.
proof fn lema_cobre_tamanho(n: nat, f: Seq<usize>)
    requires
        cobre(n, f),
    ensures
        f.len() <= n,
        forall|k: int| 0 <= k < f.len() ==> #[trigger] f[k] >= k + 1,
{
    assert forall|k: int| 0 <= k < f.len() implies #[trigger] f[k] >= k + 1 by {
        lema_cobre_piso(f, k);
    }
    if f.len() > 0 {
        assert(f[f.len() - 1] >= f.len());
    }
}

proof fn lema_cobre_piso(f: Seq<usize>, k: int)
    requires
        0 <= k < f.len(),
        forall|i: int, j: int| 0 <= i < j < f.len() ==> f[i] < f[j],
        forall|i: int| 0 <= i < f.len() ==> 0 < #[trigger] f[i],
    ensures
        f[k] >= k + 1,
    decreases k,
{
    if k > 0 {
        lema_cobre_piso(f, k - 1);
        assert(f[k - 1] < f[k]);
    }
}

/// O byte `t` está no patch `pi` quando fica entre o fim anterior e o dele.
proof fn lema_patch_de(f: Seq<usize>, pi: int, t: int)
    requires
        forall|i: int, j: int| 0 <= i < j < f.len() ==> f[i] < f[j],
        0 <= pi < f.len(),
        pi == 0 || f[pi - 1] <= t,
        t < f[pi],
    ensures
        patch_de(f, t) == pi,
    decreases pi,
{
    if pi > 0 {
        assert(f[0] <= f[pi - 1]) by {
            if pi - 1 > 0 {
                assert(f[0] < f[pi - 1]);
            }
        }
        let g = f.drop_first();
        assert(g[pi - 1] == f[pi]);
        if pi - 1 > 0 {
            assert(g[pi - 2] == f[pi - 1]);
        }
        lema_patch_de(g, pi - 1, t);
    }
}

/// O patch de um byte dentro da entrada existe e o contém.
proof fn lema_patch_de_existe(n: nat, f: Seq<usize>, t: int)
    requires
        cobre(n, f),
        0 <= t < n,
    ensures
        0 <= patch_de(f, t) < f.len(),
        t < f[patch_de(f, t)],
        patch_de(f, t) == 0 || f[patch_de(f, t) - 1] <= t,
{
    let pi = choose|pi: int| 0 <= pi < f.len() && t < #[trigger] f[pi] && (pi == 0 || f[pi - 1] <= t);
    assert(exists|pi: int| 0 <= pi < f.len() && t < #[trigger] f[pi] && (pi == 0 || f[pi - 1] <= t)) by {
        lema_primeiro_acima(f, t, f.len() - 1);
    }
    lema_patch_de(f, pi, t);
}

/// Há um primeiro fim acima de `t` entre os `m + 1` primeiros, se o `m`-ésimo está.
proof fn lema_primeiro_acima(f: Seq<usize>, t: int, m: int)
    requires
        0 <= m < f.len(),
        t < f[m],
        forall|i: int, j: int| 0 <= i < j < f.len() ==> f[i] < f[j],
    ensures
        exists|pi: int| 0 <= pi < f.len() && t < #[trigger] f[pi] && (pi == 0 || f[pi - 1] <= t),
    decreases m,
{
    if m > 0 && t < f[m - 1] {
        lema_primeiro_acima(f, t, m - 1);
    } else {
        assert(0 <= m < f.len() && t < f[m] && (m == 0 || f[m - 1] <= t));
    }
}

/// O contexto de um byte é o último patch já completo quando ele é lido: nenhum,
/// se o primeiro patch ainda não terminou; senão um patch que termina até ele, e
/// cujo seguinte ainda não terminou. É isso que mantém a hierarquia causal.
pub proof fn lei_contexto_causal(n: nat, f: Seq<usize>, t: int)
    requires
        cobre(n, f),
        0 <= t < n,
    ensures
        contexto(f, t) == SEM_PATCH <==> t + 1 < f[0],
        contexto(f, t) != SEM_PATCH ==> {
            let c = contexto(f, t) as int;
            &&& 0 <= c < f.len()
            &&& f[c] <= t + 1
            &&& c + 1 < f.len() ==> t + 1 < f[c + 1]
        },
{
    lema_patch_de_existe(n, f, t);
    lema_cobre_tamanho(n, f);
    let pi = patch_de(f, t);
    if pi > 0 {
        assert(f[0] <= f[pi - 1]) by {
            if pi - 1 > 0 {
                assert(f[0] < f[pi - 1]);
            }
        }
    }
    if pi + 1 < f.len() {
        assert(f[pi] < f[pi + 1]);
    }
}

/// Onde fica, no lote, a entrada da sequência `b` no instante `t`.
pub proof fn lema_posicao_no_lote(t: int, b: int, n: int, batch: int)
    requires
        0 <= t < n,
        0 <= b < batch,
    ensures
        0 <= t * batch + b < n * batch,
        (t * batch + b) % batch == b,
        (t * batch + b) / batch == t,
{
    assert(0 <= t * batch + b < n * batch) by (nonlinear_arith)
        requires
            0 <= t < n,
            0 <= b < batch,
    ;
    vstd::arithmetic::div_mod::lemma_fundamental_div_mod_converse(t * batch + b, batch, t, b);
}

/// Junta as colunas de um lote na ordem *time-major*.
fn entrelacar<T: Copy>(cols: &Vec<Vec<T>>, n: usize, batch: usize) -> (r: Vec<T>)
    requires
        cols@.len() == batch,
        forall|b: int| 0 <= b < batch ==> (#[trigger] cols@[b])@.len() == n,
        n * batch <= usize::MAX,
    ensures
        r@ == entrelacado(Seq::new(batch as nat, |b: int| cols@[b]@), n as nat, batch as nat),
{
    let ghost cs = Seq::new(batch as nat, |b: int| cols@[b]@);
    let mut r: Vec<T> = Vec::new();
    let mut t: usize = 0;
    while t < n
        invariant
            t <= n,
            cols@.len() == batch,
            forall|b: int| 0 <= b < batch ==> (#[trigger] cols@[b])@.len() == n,
            cs == Seq::new(batch as nat, |b: int| cols@[b]@),
            r@.len() == t * batch,
            forall|k: int| 0 <= k < t * batch ==> #[trigger] r@[k] == cs[k % (batch as int)][k / (batch as int)],
        decreases n - t,
    {
        let mut b: usize = 0;
        while b < batch
            invariant
                t < n,
                b <= batch,
                cols@.len() == batch,
                forall|b: int| 0 <= b < batch ==> (#[trigger] cols@[b])@.len() == n,
                cs == Seq::new(batch as nat, |b: int| cols@[b]@),
                r@.len() == t * batch + b,
                forall|k: int| 0 <= k < t * batch + b ==> #[trigger] r@[k] == cs[k % (batch as int)][k / (batch as int)],
            decreases batch - b,
        {
            proof {
                lema_posicao_no_lote(t as int, b as int, n as int, batch as int);
            }
            let x = cols[b][t];
            r.push(x);
            b = b + 1;
        }
        assert((t + 1) * batch == t * batch + batch) by (nonlinear_arith);
        t = t + 1;
    }
    assert(r@ =~= entrelacado(cs, n as nat, batch as nat));
    r
}

/// As saídas de uma sequência: último byte de cada patch (até `p_max`),
/// contexto e patch de cada byte.
fn colunas_do_plano(f: &Vec<usize>, seq: usize, p_max: usize) -> (r: (Vec<usize>, Vec<usize>, Vec<usize>))
    requires
        cobre(seq as nat, f@),
        f@.len() <= p_max,
    ensures
        r.0@ == col_ultimo(f@, p_max as nat),
        r.1@ == col_contexto(f@, seq as nat),
        r.2@ == col_patch(f@, seq as nat),
{
    let mut ultimo: Vec<usize> = Vec::new();
    let mut ctx: Vec<usize> = Vec::new();
    let mut patch: Vec<usize> = Vec::new();
    let mut inicio: usize = 0;
    let mut pi: usize = 0;
    while pi < f.len()
        invariant
            cobre(seq as nat, f@),
            f@.len() <= p_max,
            pi <= f@.len(),
            inicio == (if pi == 0 { 0 } else { f@[pi - 1] as int }),
            ultimo@.len() == pi,
            forall|q: int| 0 <= q < pi ==> #[trigger] ultimo@[q] == col_ultimo(f@, p_max as nat)[q],
            ctx@.len() == inicio,
            patch@.len() == inicio,
            forall|q: int| 0 <= q < inicio ==> #[trigger] ctx@[q] == contexto(f@, q),
            forall|q: int| 0 <= q < inicio ==> #[trigger] patch@[q] == patch_de(f@, q) as usize,
        decreases f.len() - pi,
    {
        let fp = f[pi];
        if pi > 0 {
            assert(f@[pi - 1] < f@[pi as int]);
        }
        ultimo.push(fp - 1);
        let mut t: usize = inicio;
        while t < fp
            invariant
                cobre(seq as nat, f@),
                pi < f@.len(),
                fp == f@[pi as int],
                inicio == (if pi == 0 { 0 } else { f@[pi - 1] as int }),
                inicio <= t <= fp,
                ctx@.len() == t,
                patch@.len() == t,
                forall|q: int| 0 <= q < t ==> #[trigger] ctx@[q] == contexto(f@, q),
                forall|q: int| 0 <= q < t ==> #[trigger] patch@[q] == patch_de(f@, q) as usize,
            decreases fp - t,
        {
            proof {
                lema_patch_de(f@, pi as int, t as int);
            }
            patch.push(pi);
            let c = if t == fp - 1 {
                pi
            } else if pi == 0 {
                SEM_PATCH
            } else {
                pi - 1
            };
            ctx.push(c);
            t = t + 1;
        }
        inicio = fp;
        pi = pi + 1;
    }
    while ultimo.len() < p_max
        invariant
            f@.len() <= ultimo@.len() <= p_max,
            forall|q: int| 0 <= q < ultimo@.len() ==> #[trigger] ultimo@[q] == col_ultimo(f@, p_max as nat)[q],
        decreases p_max - ultimo.len(),
    {
        ultimo.push(SEM_PATCH);
    }
    assert(inicio == seq) by {
        if seq > 0 {
            assert(f@.last() == seq);
        }
    }
    assert(ultimo@ =~= col_ultimo(f@, p_max as nat));
    assert(ctx@ =~= col_contexto(f@, seq as nat));
    assert(patch@ =~= col_patch(f@, seq as nat));
    (ultimo, ctx, patch)
}

/// As marcas de palavra de uma sequência.
fn marcas(c: &[u8]) -> (r: (Vec<bool>, Vec<bool>))
    ensures
        r.0@ == col_abre(c@),
        r.1@ == col_fecha(c@),
{
    let mut abre: Vec<bool> = Vec::new();
    let mut fecha: Vec<bool> = Vec::new();
    let n = c.len();
    let mut t: usize = 0;
    while t < n
        invariant
            n == c@.len(),
            t <= n,
            abre@.len() == t,
            fecha@.len() == t,
            forall|q: int| 0 <= q < t ==> #[trigger] abre@[q] == col_abre(c@)[q],
            forall|q: int| 0 <= q < t ==> #[trigger] fecha@[q] == col_fecha(c@)[q],
        decreases n - t,
    {
        let x = c[t];
        let branco = x == 32 || x == 9 || x == 10 || x == 13;
        if branco {
            abre.push(false);
            fecha.push(false);
        } else {
            let a = t == 0 || {
                let y = c[t - 1];
                y == 32 || y == 9 || y == 10 || y == 13
            };
            let f = t + 1 == n || {
                let y = c[t + 1];
                y == 32 || y == 9 || y == 10 || y == 13
            };
            abre.push(a);
            fecha.push(f);
        }
        t = t + 1;
    }
    assert(abre@ =~= col_abre(c@));
    assert(fecha@ =~= col_fecha(c@));
    (abre, fecha)
}

/// As fronteiras de cada sequência do lote.
pub open spec fn fins_do_lote<P: Patcher>(p: &P, bytes: Seq<u8>, seq: nat, batch: nat) -> Seq<Seq<usize>> {
    Seq::new(batch, |b: int| p.corte(coluna(bytes, seq as int, batch as int, b)))
}

/// Plano de patching de um lote inteiro, preenchido até `p_max` patches.
#[derive(Clone, Debug)]
pub struct Plano {
    pub seq: usize,
    pub batch: usize,
    pub p_max: usize,
    /// `[p_max·batch]`: byte final de cada patch, `SEM_PATCH` se preenchimento.
    pub ultimo_byte: Vec<usize>,
    /// `[seq·batch]`: patch de contexto de cada byte (o último completo).
    pub ctx: Vec<usize>,
    /// `[seq·batch]`: a que patch cada byte pertence.
    pub patch_de_byte: Vec<usize>,
    pub n_patches: Vec<usize>,
    /// `[batch]`: bytes reais de cada pedido.
    pub comprimentos: Vec<usize>,
    /// `[seq·batch]`: este byte abre uma palavra?
    pub abre_palavra: Vec<bool>,
    /// `[seq·batch]`: este byte fecha uma palavra?
    pub fecha_palavra: Vec<bool>,
}

impl Default for Plano {
    fn default() -> (r: Self)
        ensures
            r.seq == 0 && r.batch == 0 && r.p_max == 0,
            r.ultimo_byte@.len() == 0 && r.ctx@.len() == 0 && r.patch_de_byte@.len() == 0,
            r.n_patches@.len() == 0 && r.comprimentos@.len() == 0,
            r.abre_palavra@.len() == 0 && r.fecha_palavra@.len() == 0,
    {
        Plano {
            seq: 0,
            batch: 0,
            p_max: 0,
            ultimo_byte: Vec::new(),
            ctx: Vec::new(),
            patch_de_byte: Vec::new(),
            n_patches: Vec::new(),
            comprimentos: Vec::new(),
            abre_palavra: Vec::new(),
            fecha_palavra: Vec::new(),
        }
    }
}

/// Quantos dos primeiros `p` patches da sequência `b` terminam dentro dos
/// `tamanho` bytes de verdade.
pub open spec fn patches_reais(ub: Seq<usize>, batch: int, b: int, p: int, tamanho: int) -> nat
    decreases p,
{
    if p <= 0 {
        0
    } else {
        let u = ub[(p - 1) * batch + b];
        patches_reais(ub, batch, b, p - 1, tamanho) + (if u != SEM_PATCH && u < tamanho {
            1nat
        } else {
            0nat
        })
    }
}

proof fn lema_patches_reais(ub: Seq<usize>, batch: int, b: int, p: int, tamanho: int)
    requires
        p >= 0,
    ensures
        patches_reais(ub, batch, b, p, tamanho) <= p,
    decreases p,
{
    if p > 0 {
        lema_patches_reais(ub, batch, b, p - 1, tamanho);
    }
}

fn copia(v: &[usize]) -> (r: Vec<usize>)
    ensures
        r@ == v@,
{
    let mut r: Vec<usize> = Vec::new();
    let mut i: usize = 0;
    while i < v.len()
        invariant
            i <= v.len(),
            r@ == v@.take(i as int),
        decreases v.len() - i,
    {
        r.push(v[i]);
        i = i + 1;
        assert(r@ =~= v@.take(i as int));
    }
    assert(v@.take(v.len() as int) =~= v@);
    r
}

impl Plano {
    /// O plano de um lote, com `bytes` em ordem *time-major*: `bytes[t·batch + b]`.
    pub fn novo<P: Patcher>(p: &P, bytes: &[u8], seq: usize, batch: usize) -> (r: Plano)
        requires
            bytes@.len() == seq * batch,
            forall|b: int| 0 <= b < batch ==> p.aceita(#[trigger] coluna(bytes@, seq as int, batch as int, b)),
        ensures
            r.seq == seq,
            r.batch == batch,
            r.n_patches@ == fins_do_lote(p, bytes@, seq as nat, batch as nat).map_values(
                |f: Seq<usize>| f.len() as usize,
            ),
            r.p_max == maximo(r.n_patches@),
            r.p_max <= seq,
            r.ultimo_byte@ == entrelacado(
                fins_do_lote(p, bytes@, seq as nat, batch as nat).map_values(
                    |f: Seq<usize>| col_ultimo(f, r.p_max as nat),
                ),
                r.p_max as nat,
                batch as nat,
            ),
            r.ctx@ == entrelacado(
                fins_do_lote(p, bytes@, seq as nat, batch as nat).map_values(
                    |f: Seq<usize>| col_contexto(f, seq as nat),
                ),
                seq as nat,
                batch as nat,
            ),
            r.patch_de_byte@ == entrelacado(
                fins_do_lote(p, bytes@, seq as nat, batch as nat).map_values(
                    |f: Seq<usize>| col_patch(f, seq as nat),
                ),
                seq as nat,
                batch as nat,
            ),
            r.comprimentos@ == Seq::new(batch as nat, |b: int| seq),
            r.abre_palavra@ == entrelacado(
                Seq::new(batch as nat, |b: int| col_abre(coluna(bytes@, seq as int, batch as int, b))),
                seq as nat,
                batch as nat,
            ),
            r.fecha_palavra@ == entrelacado(
                Seq::new(batch as nat, |b: int| col_fecha(coluna(bytes@, seq as int, batch as int, b))),
                seq as nat,
                batch as nat,
            ),
    {
        let ghost fl = fins_do_lote(p, bytes@, seq as nat, batch as nat);
        let n_bytes = bytes.len();
        assert(seq * batch <= usize::MAX);
        let mut n_patches: Vec<usize> = Vec::new();
        let mut fins_v: Vec<Vec<usize>> = Vec::new();
        let mut abres: Vec<Vec<bool>> = Vec::new();
        let mut fechas: Vec<Vec<bool>> = Vec::new();
        let mut comprimentos: Vec<usize> = Vec::new();
        let mut b: usize = 0;
        while b < batch
            invariant
                b <= batch,
                bytes@.len() == seq * batch,
                seq * batch <= usize::MAX,
                forall|b: int| 0 <= b < batch ==> p.aceita(#[trigger] coluna(bytes@, seq as int, batch as int, b)),
                fl == fins_do_lote(p, bytes@, seq as nat, batch as nat),
                n_patches@.len() == b,
                fins_v@.len() == b,
                abres@.len() == b,
                fechas@.len() == b,
                comprimentos@.len() == b,
                forall|k: int| 0 <= k < b ==> (#[trigger] fins_v@[k])@ == fl[k],
                forall|k: int| 0 <= k < b ==> cobre(seq as nat, #[trigger] fl[k]),
                forall|k: int| 0 <= k < b ==> #[trigger] n_patches@[k] == fl[k].len(),
                forall|k: int| 0 <= k < b ==> n_patches@[k] <= seq,
                forall|k: int| 0 <= k < b ==> (#[trigger] abres@[k])@ == col_abre(coluna(bytes@, seq as int, batch as int, k)),
                forall|k: int| 0 <= k < b ==> (#[trigger] fechas@[k])@ == col_fecha(coluna(bytes@, seq as int, batch as int, k)),
                forall|k: int| 0 <= k < b ==> #[trigger] comprimentos@[k] == seq,
            decreases batch - b,
        {
            let ghost col = coluna(bytes@, seq as int, batch as int, b as int);
            let mut linha: Vec<u8> = Vec::new();
            let mut t: usize = 0;
            while t < seq
                invariant
                    t <= seq,
                    b < batch,
                    bytes@.len() == seq * batch,
                    seq * batch <= usize::MAX,
                    col == coluna(bytes@, seq as int, batch as int, b as int),
                    linha@ == col.take(t as int),
                decreases seq - t,
            {
                proof {
                    lema_posicao_no_lote(t as int, b as int, seq as int, batch as int);
                }
                let x = bytes[t * batch + b];
                linha.push(x);
                t = t + 1;
                assert(linha@ =~= col.take(t as int));
            }
            assert(col.take(seq as int) =~= col);
            let mut fim: Vec<usize> = Vec::new();
            p.fronteiras(linha.as_slice(), &mut fim);
            proof {
                lema_cobre_tamanho(seq as nat, fim@);
            }
            let (a, f) = marcas(linha.as_slice());
            n_patches.push(fim.len());
            fins_v.push(fim);
            abres.push(a);
            fechas.push(f);
            comprimentos.push(seq);
            b = b + 1;
        }
        let mut p_max: usize = 0;
        let mut i: usize = 0;
        while i < n_patches.len()
            invariant
                i <= n_patches@.len(),
                p_max == maximo(n_patches@.take(i as int)),
            decreases n_patches.len() - i,
        {
            assert(n_patches@.take(i + 1).drop_last() =~= n_patches@.take(i as int));
            if n_patches[i] > p_max {
                p_max = n_patches[i];
            }
            i = i + 1;
        }
        assert(n_patches@.take(n_patches@.len() as int) =~= n_patches@);
        proof {
            lema_maximo(n_patches@, seq as int);
        }
        assert(p_max * batch <= seq * batch) by (nonlinear_arith)
            requires
                p_max <= seq,
        ;
        let mut ultimos: Vec<Vec<usize>> = Vec::new();
        let mut ctxs: Vec<Vec<usize>> = Vec::new();
        let mut patches: Vec<Vec<usize>> = Vec::new();
        let mut b: usize = 0;
        while b < batch
            invariant
                b <= batch,
                fins_v@.len() == batch,
                n_patches@.len() == batch,
                forall|k: int| 0 <= k < batch ==> (#[trigger] fins_v@[k])@ == fl[k],
                forall|k: int| 0 <= k < batch ==> cobre(seq as nat, #[trigger] fl[k]),
                forall|k: int| 0 <= k < batch ==> #[trigger] n_patches@[k] == fl[k].len(),
                forall|k: int| 0 <= k < batch ==> #[trigger] n_patches@[k] <= p_max,
                ultimos@.len() == b,
                ctxs@.len() == b,
                patches@.len() == b,
                forall|k: int| 0 <= k < b ==> (#[trigger] ultimos@[k])@ == col_ultimo(fl[k], p_max as nat),
                forall|k: int| 0 <= k < b ==> (#[trigger] ctxs@[k])@ == col_contexto(fl[k], seq as nat),
                forall|k: int| 0 <= k < b ==> (#[trigger] patches@[k])@ == col_patch(fl[k], seq as nat),
            decreases batch - b,
        {
            assert(n_patches@[b as int] <= p_max);
            assert(fins_v@[b as int]@ == fl[b as int]);
            let (u, c, q) = colunas_do_plano(&fins_v[b], seq, p_max);
            ultimos.push(u);
            ctxs.push(c);
            patches.push(q);
            b = b + 1;
        }
        let ultimo_byte = entrelacar(&ultimos, p_max, batch);
        let ctx = entrelacar(&ctxs, seq, batch);
        let patch_de_byte = entrelacar(&patches, seq, batch);
        let abre_palavra = entrelacar(&abres, seq, batch);
        let fecha_palavra = entrelacar(&fechas, seq, batch);
        proof {
            assert(n_patches@ =~= fl.map_values(|f: Seq<usize>| f.len() as usize));
            assert(Seq::new(batch as nat, |b: int| ultimos@[b]@) =~= fl.map_values(
                |f: Seq<usize>| col_ultimo(f, p_max as nat),
            ));
            assert(Seq::new(batch as nat, |b: int| ctxs@[b]@) =~= fl.map_values(
                |f: Seq<usize>| col_contexto(f, seq as nat),
            ));
            assert(Seq::new(batch as nat, |b: int| patches@[b]@) =~= fl.map_values(
                |f: Seq<usize>| col_patch(f, seq as nat),
            ));
            assert(Seq::new(batch as nat, |b: int| abres@[b]@) =~= Seq::new(
                batch as nat,
                |b: int| col_abre(coluna(bytes@, seq as int, batch as int, b)),
            ));
            assert(Seq::new(batch as nat, |b: int| fechas@[b]@) =~= Seq::new(
                batch as nat,
                |b: int| col_fecha(coluna(bytes@, seq as int, batch as int, b)),
            ));
            assert(comprimentos@ =~= Seq::new(batch as nat, |b: int| seq));
        }
        Plano {
            seq,
            batch,
            p_max,
            ultimo_byte,
            ctx,
            patch_de_byte,
            n_patches,
            comprimentos,
            abre_palavra,
            fecha_palavra,
        }
    }

    /// Restringe cada sequência ao seu comprimento verdadeiro: só contam os patches que
    /// terminam antes do preenchimento, e toda sequência fica com ao menos um.
    pub fn limitar(&mut self, comprimentos: &[usize])
        requires
            old(self).ultimo_byte@.len() == old(self).p_max * old(self).batch,
            old(self).n_patches@.len() == old(self).batch,
            comprimentos@.len() == old(self).batch,
        ensures
            final(self).comprimentos@ == comprimentos@,
            final(self).n_patches@ == Seq::new(
                old(self).batch as nat,
                |b: int|
                    {
                        let n = patches_reais(
                            old(self).ultimo_byte@,
                            old(self).batch as int,
                            b,
                            old(self).p_max as int,
                            comprimentos@[b] as int,
                        );
                        if n >= 1 {
                            n as usize
                        } else {
                            1usize
                        }
                    },
            ),
            forall|b: int| 0 <= b < old(self).batch ==> #[trigger] final(self).n_patches@[b] >= 1,
            final(self).seq == old(self).seq,
            final(self).batch == old(self).batch,
            final(self).p_max == old(self).p_max,
            final(self).ultimo_byte@ == old(self).ultimo_byte@,
            final(self).ctx@ == old(self).ctx@,
            final(self).patch_de_byte@ == old(self).patch_de_byte@,
            final(self).abre_palavra@ == old(self).abre_palavra@,
            final(self).fecha_palavra@ == old(self).fecha_palavra@,
    {
        self.comprimentos = copia(comprimentos);
        let batch = self.batch;
        let p_max = self.p_max;
        let n_ub = self.ultimo_byte.len();
        let ghost alvo = Seq::new(
            batch as nat,
            |b: int|
                {
                    let n = patches_reais(
                        self.ultimo_byte@,
                        batch as int,
                        b,
                        p_max as int,
                        comprimentos@[b] as int,
                    );
                    if n >= 1 {
                        n as usize
                    } else {
                        1usize
                    }
                },
        );
        let mut b: usize = 0;
        while b < batch
            invariant
                b <= batch,
                batch == self.batch,
                p_max == self.p_max,
                self.ultimo_byte@ == old(self).ultimo_byte@,
                self.ultimo_byte@.len() == p_max * batch,
                n_ub == self.ultimo_byte@.len(),
                self.n_patches@.len() == batch,
                comprimentos@.len() == batch,
                forall|k: int| 0 <= k < b ==> #[trigger] self.n_patches@[k] == alvo[k],
                self.seq == old(self).seq,
                self.batch == old(self).batch,
                self.p_max == old(self).p_max,
                self.ctx@ == old(self).ctx@,
                self.patch_de_byte@ == old(self).patch_de_byte@,
                self.abre_palavra@ == old(self).abre_palavra@,
                self.fecha_palavra@ == old(self).fecha_palavra@,
                self.comprimentos@ == comprimentos@,
                alvo == Seq::new(
                    batch as nat,
                    |b: int|
                        {
                            let n = patches_reais(
                                old(self).ultimo_byte@,
                                batch as int,
                                b,
                                p_max as int,
                                comprimentos@[b] as int,
                            );
                            if n >= 1 {
                                n as usize
                            } else {
                                1usize
                            }
                        },
                ),
            decreases batch - b,
        {
            let tamanho = comprimentos[b];
            let mut n: usize = 0;
            let mut q: usize = 0;
            while q < p_max
                invariant
                    q <= p_max,
                    b < batch,
                    self.ultimo_byte@.len() == p_max * batch,
                    n_ub == self.ultimo_byte@.len(),
                    n == patches_reais(self.ultimo_byte@, batch as int, b as int, q as int, tamanho as int),
                    n <= q,
                decreases p_max - q,
            {
                proof {
                    lema_posicao_no_lote(q as int, b as int, p_max as int, batch as int);
                }
                let ub = self.ultimo_byte[q * batch + b];
                if ub != SEM_PATCH && ub < tamanho {
                    n = n + 1;
                }
                q = q + 1;
            }
            let v = if n >= 1 {
                n
            } else {
                1
            };
            self.n_patches.set(b, v);
            b = b + 1;
        }
        assert(self.n_patches@ =~= alvo);
        assert forall|b: int| 0 <= b < batch implies #[trigger] self.n_patches@[b] >= 1 by {
            assert(self.n_patches@[b] == alvo[b]);
            lema_patches_reais(old(self).ultimo_byte@, batch as int, b, p_max as int, comprimentos@[b] as int);
        }
    }
}

} // verus!
