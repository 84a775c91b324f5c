//! O pulso: ela continua rodando quando ninguém está pedindo nada.
//!
//! A cada tick ela percebe se a memória cresceu, devaneia a partir de um fio de
//! pensamento e, de tempos em tempos, consolida sobre a memória real. Pensar não
//! muda peso; só consolidar muda. Aqui ficam as decisões do tick que não dependem
//! do modelo: quando reancorar o fio, de que semente devanear, quando consolidar,
//! que regra vigiar e o que relatar dela.
use vstd::prelude::*;
use vstd::utf8::encode_utf8;
use crate::gatilhos::juntar_palavras;
use crate::regras::{Passo, Regra, Regras};
use crate::rng::Rng;
use crate::texto::{
    acrescentar_str, caracteres, contem, contem_exec, copiar, de_utf8_com_perdas, utf8_com_perdas,
};

verus! {

/// Quantos bytes do fio servem de semente para o próximo devaneio.
pub const CAUDA_FIO: usize = 96;

/// Depois de tantos ticks sem percepção nova, o fio é reancorado na memória.
pub const IDADE_MAXIMA_FIO: u32 = 40;

/// O que um tick decidiu.
#[derive(Clone, Copy, Debug)]
pub struct Batida {
    pub tick: u64,
    /// Episódios novos desde o tick anterior.
    pub episodios_novos: usize,
    /// O fio foi reancorado na memória.
    pub reancorou: bool,
    /// Chegou a hora de consolidar (por percepção nova ou pelo relógio).
    pub consolidar: bool,
}

/// O laço: guarda o fio de pensamento entre ticks.
#[derive(Debug)]
pub struct Pulso {
    ticks: u64,
    vistos: usize,
    fio: String,
    idade_fio: u32,
    rng: Rng,
}

/// O fio reancorado: os últimos quatro pedidos, do mais recente para o mais
/// antigo, separados por espaço; `teka` se não há nada.
pub open spec fn ancora(pedidos: Seq<Seq<char>>) -> Seq<char> {
    let n = pedidos.len();
    let k: nat = if n < 4 { n } else { 4 };
    let j = juntar_palavras(Seq::new(k, |i: int| pedidos[n - 1 - i]));
    if j.len() == 0 {
        "teka"@
    } else {
        j
    }
}

/// Chegou a hora de consolidar: episódios novos bastantes, ou o relógio.
pub open spec fn hora_de_consolidar(novos: nat, tick: nat, gatilho: nat, a_cada: nat) -> bool {
    novos >= gatilho || (a_cada > 0 && tick % a_cada == 0)
}

/// A semente do devaneio: os últimos `CAUDA_FIO` bytes do fio.
pub open spec fn semente_de(fio: Seq<char>) -> Seq<char> {
    let b = encode_utf8(fio);
    let ini: int = if b.len() > CAUDA_FIO { b.len() - CAUDA_FIO } else { 0 };
    utf8_com_perdas(b.skip(ini))
}

/// O fio reancorado nos pedidos de verdade.
pub fn reancora(pedidos: &[String]) -> (r: String)
    ensures
        r@ == ancora(vistas_str(pedidos@)),
{
    let n = pedidos.len();
    let k: usize = if n < 4 {
        n
    } else {
        4
    };
    let ghost pv = vistas_str(pedidos@);
    let mut r: Vec<char> = Vec::new();
    let mut i: usize = 0;
    let ghost ws = Seq::new(k as nat, |i: int| pv[n - 1 - i]);
    assert(ws.take(0) =~= Seq::<Seq<char>>::empty());
    while i < k
        invariant
            i <= k <= n,
            n == pedidos@.len(),
            pv == vistas_str(pedidos@),
            ws == Seq::new(k as nat, |i: int| pv[n - 1 - i]),
            r@ == juntar_palavras(ws.take(i as int)),
        decreases k - i,
    {
        assert(ws.take(i + 1).drop_last() =~= ws.take(i as int));
        assert(ws.take(i + 1).last() == pedidos@[n - 1 - i]@);
        if i > 0 {
            r.push(' ');
        }
        let c = crate::texto::caracteres_de(&pedidos[n - 1 - i]);
        crate::texto::acrescentar_vec(&mut r, c.as_slice());
        i = i + 1;
        assert(r@ =~= juntar_palavras(ws.take(i as int)));
    }
    assert(ws.take(k as int) =~= ws);
    if r.len() == 0 {
        copiar("teka")
    } else {
        crate::texto::string_de(r.as_slice())
    }
}

pub open spec fn vistas_str(v: Seq<String>) -> Seq<Seq<char>> {
    v.map_values(|s: String| s@)
}

/// A semente do próximo devaneio: o fim do fio.
pub fn semente(fio: &str) -> (r: String)
    ensures
        r@ == semente_de(fio@),
{
    let b = fio.as_bytes();
    let n = b.len();
    let ini: usize = if n > CAUDA_FIO {
        n - CAUDA_FIO
    } else {
        0
    };
    let mut cauda: Vec<u8> = Vec::new();
    let mut i: usize = ini;
    while i < n
        invariant
            ini <= i <= n,
            n == b@.len(),
            cauda@ == b@.subrange(ini as int, i as int),
        decreases n - i,
    {
        cauda.push(b[i]);
        i = i + 1;
        assert(cauda@ =~= b@.subrange(ini as int, i as int));
    }
    assert(cauda@ =~= encode_utf8(fio@).skip(ini as int));
    de_utf8_com_perdas(cauda.as_slice())
}

impl Pulso {
    pub closed spec fn estado(&self) -> (u64, usize, Seq<char>, u32) {
        (self.ticks, self.vistos, self.fio@, self.idade_fio)
    }

    pub fn novo(semente: u64) -> (r: Pulso)
        ensures
            r.estado() == (0u64, 0usize, Seq::<char>::empty(), 0u32),
            r.gerador() == crate::rng::inicial(semente),
    {
        Pulso { ticks: 0, vistos: 0, fio: String::new(), idade_fio: 0, rng: Rng::new(semente) }
    }

    pub fn ticks(&self) -> (r: u64)
        ensures
            r == self.estado().0,
    {
        self.ticks
    }

    pub fn fio(&self) -> (r: &String)
        ensures
            r@ == self.estado().2,
    {
        &self.fio
    }

    /// Quantos devaneios o fio já recebeu desde a última âncora.
    pub fn idade_do_fio(&self) -> (r: u32)
        ensures
            r == self.estado().3,
    {
        self.idade_fio
    }

    /// O estado do gerador do devaneio.
    pub closed spec fn gerador(&self) -> (u64, u64) {
        self.rng.estado()
    }

    /// O gerador que o devaneio usa, emprestado para sortear: o que se sortear
    /// com ele fica no pulso, e nada mais muda.
    pub fn rng(&mut self) -> (r: &mut Rng)
        ensures
            r.estado() == old(self).gerador(),
            final(self).estado() == old(self).estado(),
            final(self).gerador() == final(r).estado(),
    {
        &mut self.rng
    }

    /// Um tick: percebe a memória (que tem `n_episodios`, cujos pedidos são
    /// `pedidos`), reancora o fio se houve episódio novo, se ele está vazio ou
    /// velho demais, e decide se é hora de consolidar.
    pub fn bater(
        &mut self,
        n_episodios: usize,
        pedidos: &[String],
        gatilho_episodios: usize,
        consolidar_a_cada: u64,
    ) -> (r: Batida)
        requires
            old(self).estado().0 < u64::MAX,
        ensures
            ({
                let (t, v, fio, idade) = old(self).estado();
                let novos: nat = if n_episodios >= v { (n_episodios - v) as nat } else { 0 };
                let reancora = novos > 0 || fio.len() == 0 || idade >= IDADE_MAXIMA_FIO;
                &&& r.tick == t + 1
                &&& r.episodios_novos == novos
                &&& r.reancorou == reancora
                &&& r.consolidar == hora_de_consolidar(novos, (t + 1) as nat, gatilho_episodios as nat, consolidar_a_cada as nat)
                &&& final(self).estado() == (
                    (t + 1) as u64,
                    n_episodios,
                    if reancora { ancora(vistas_str(pedidos@)) } else { fio },
                    if reancora { 0u32 } else { idade },
                )
                &&& final(self).gerador() == old(self).gerador()
            }),
    {
        self.ticks = self.ticks + 1;
        let novos = if n_episodios >= self.vistos {
            n_episodios - self.vistos
        } else {
            0
        };
        self.vistos = n_episodios;
        let vazio = crate::texto::caracteres_de(&self.fio).len() == 0;
        let reancorou = novos > 0 || vazio || self.idade_fio >= IDADE_MAXIMA_FIO;
        if reancorou {
            self.fio = reancora(pedidos);
            self.idade_fio = 0;
        }
        let consolidar = novos >= gatilho_episodios || (consolidar_a_cada > 0 && self.ticks
            % consolidar_a_cada == 0);
        Batida { tick: self.ticks, episodios_novos: novos, reancorou, consolidar }
    }

    /// O devaneio do tick entra no fio, que fica um tick mais velho.
    pub fn pensou(&mut self, pensamento: &str)
        requires
            old(self).estado().3 < u32::MAX,
        ensures
            final(self).estado() == (
                old(self).estado().0,
                old(self).estado().1,
                old(self).estado().2 + pensamento@,
                (old(self).estado().3 + 1) as u32,
            ),
            final(self).gerador() == old(self).gerador(),
    {
        acrescentar_str(&mut self.fio, pensamento);
        self.idade_fio = self.idade_fio + 1;
    }
}

/// A regra que o vigia olha: a primeira das ligadas. Sem regra ligada não há
/// nada a vigiar, e nem se fala com a ponte.
pub fn regra_a_vigiar(regras: &Regras) -> (r: Option<Regra>)
    ensures
        r is None <==> crate::regras::ativas_de(regras.tabela_s(), regras.ligadas_s()).len() == 0,
        r matches Some(x) ==> crate::regras::vista_regra(x) == crate::regras::ativas_de(
            regras.tabela_s(),
            regras.ligadas_s(),
        )[0],
{
    let mut a = regras.ativas();
    if a.len() == 0 {
        None
    } else {
        Some(a.remove(0))
    }
}

/// A resposta do `getdata` da ponte diz que a música está tocando.
pub fn esta_tocando(resposta: &str) -> (r: bool)
    ensures
        r == contem(resposta@, "\"tocando\":true"@),
{
    let h = caracteres(resposta);
    let n = caracteres("\"tocando\":true");
    contem_exec(h.as_slice(), n.as_slice())
}

/// Um caractere do pensamento como ele vai para o arquivo de pulso: aspas e barra
/// ganham a barra de escape, e todo controle vira espaço.
pub open spec fn escape_pulso(c: char) -> Seq<char> {
    if c == '"' {
        seq!['\\', '"']
    } else if c == '\\' {
        seq!['\\', '\\']
    } else if ' ' > c {
        seq![' ']
    } else {
        seq![c]
    }
}

pub open spec fn escapado_pulso(s: Seq<char>) -> Seq<char>
    decreases s.len(),
{
    if s.len() == 0 {
        seq![]
    } else {
        escapado_pulso(s.drop_last()) + escape_pulso(s.last())
    }
}

/// Nada de controle sai do escape: o valor nunca quebra a linha do arquivo.
pub proof fn lei_o_pulso_nao_quebra_linha(s: Seq<char>)
    ensures
        forall|i: int| 0 <= i < escapado_pulso(s).len() ==> !(' ' > #[trigger] escapado_pulso(s)[i]),
    decreases s.len(),
{
    if s.len() > 0 {
        lei_o_pulso_nao_quebra_linha(s.drop_last());
        let a = escapado_pulso(s.drop_last());
        let b = escape_pulso(s.last());
        assert forall|i: int| 0 <= i < escapado_pulso(s).len() implies !(' ' > #[trigger] escapado_pulso(s)[i]) by {
            if i >= a.len() {
                assert(escapado_pulso(s)[i] == b[i - a.len()]);
            } else {
                assert(escapado_pulso(s)[i] == a[i]);
            }
        }
    }
}

/// Escapa um texto para o arquivo de pulso.
pub fn escapar_pulso(s: &str) -> (r: String)
    ensures
        r@ == escapado_pulso(s@),
{
    let c = caracteres(s);
    let n = c.len();
    let mut v: Vec<char> = Vec::new();
    let mut i: usize = 0;
    while i < n
        invariant
            i <= n,
            n == c@.len(),
            c@ == s@,
            v@ == escapado_pulso(c@.take(i as int)),
        decreases n - i,
    {
        let x = c[i];
        assert(c@.take(i + 1).drop_last() =~= c@.take(i as int));
        if x == '"' {
            v.push('\\');
            v.push('"');
        } else if x == '\\' {
            v.push('\\');
            v.push('\\');
        } else if ' ' > x {
            v.push(' ');
        } else {
            v.push(x);
        }
        i = i + 1;
        assert(v@ =~= escapado_pulso(c@.take(i as int)));
    }
    assert(c@.take(n as int) =~= c@);
    crate::texto::string_de(v.as_slice())
}

/// O que relatar do vigia: o resultado da ação, se agiu; a desistência; ou nada.
pub open spec fn relato_de(nome: Seq<char>, p: Passo, resultado: Option<Result<Seq<char>, Seq<char>>>) -> Option<Seq<char>> {
    match p {
        Passo::Age => match resultado {
            Some(Ok(s)) => Some(nome + ": "@ + s),
            Some(Err(e)) => Some(nome + ": falhou ("@ + e + ")"@),
            None => None,
        },
        Passo::Desistiu => Some(nome + ": desisti, a acao nao resolve"@),
        _ => None,
    }
}

pub fn relato(nome: &str, p: Passo, resultado: Option<Result<String, String>>) -> (r: Option<String>)
    ensures
        match relato_de(
            nome@,
            p,
            match resultado {
                Some(Ok(s)) => Some(Ok(s@)),
                Some(Err(e)) => Some(Err(e@)),
                None => None,
            },
        ) {
            Some(t) => r matches Some(x) && x@ == t,
            None => r is None,
        },
{
    match p {
        Passo::Age => match resultado {
            Some(Ok(s)) => {
                let mut t = copiar(nome);
                acrescentar_str(&mut t, ": ");
                acrescentar_str(&mut t, s.as_str());
                Some(t)
            },
            Some(Err(e)) => {
                let mut t = copiar(nome);
                acrescentar_str(&mut t, ": falhou (");
                acrescentar_str(&mut t, e.as_str());
                acrescentar_str(&mut t, ")");
                Some(t)
            },
            None => None,
        },
        Passo::Desistiu => {
            let mut t = copiar(nome);
            acrescentar_str(&mut t, ": desisti, a acao nao resolve");
            Some(t)
        },
        _ => None,
    }
}

} // verus!
