//! Regras permanentes: ela vigia e age sozinha, enquanto ligada.
//!
//! *"Teka, toda vez que a música parar, você retoma — por causa do Discord."*
//!
//! ## As duas travas, e por que existem
//!
//! **1. O dono desliga com a voz, não com adivinhação.** Do estado do player, o
//! Discord pausando e o John pausando são idênticos. Então a regra retoma sempre, e
//! para quando o dono manda parar — [`Vigia::dono_pausou`], ou desligando a regra.
//!
//! **2. Teto de disparos.** Se a ação não resolve — a ponte caiu, o Spotify fechou —
//! ela para de tentar.
//!
//! O tempo entra como milissegundos de um relógio monotônico, dado por quem chama:
//! assim o teste controla o tempo em vez de dormir.
use vstd::prelude::*;
use crate::diario::{linhas, linhas_de_texto};
use crate::texto::{
    aparado, aparar, caracteres, caracteres_de, cortar, iguais, igual_str, minusculas,
    para_minusculas, pedacos_por, string_de, vistas,
};

verus! {

/// Quantas vezes seguidas a regra pode disparar sem o mundo mudar: a primeira pode
/// perder uma corrida com o app, a segunda cobre o caso normal, a quarta seria
/// teimosia.
pub const TETO_SEGUIDO: u32 = 3;

/// Espaço mínimo entre dois disparos da mesma regra, em milissegundos.
pub const ESPACO_MS: u64 = 3000;

#[derive(Clone, Copy, Debug, PartialEq, Eq, Structural)]
pub enum Condicao {
    /// O Spotify está pausado.
    MusicaParada,
}

pub open spec fn condicao_de(nome: Seq<char>) -> Option<Condicao> {
    if aparado(nome) == "musica_parada"@ {
        Some(Condicao::MusicaParada)
    } else {
        None
    }
}

impl Condicao {
    pub fn ler(nome: &str) -> (r: Option<Condicao>)
        ensures
            r == condicao_de(nome@),
    {
        let n = crate::texto::aparar_str(nome);
        if igual_str(n.as_slice(), "musica_parada") {
            Some(Condicao::MusicaParada)
        } else {
            None
        }
    }
}

#[derive(Clone, Debug)]
pub struct Regra {
    pub nome: String,
    pub condicao: Condicao,
    pub acao: String,
    pub ligada: bool,
}

/// Uma regra vista como (nome, condição, ação, ligada).
pub type RegraS = (Seq<char>, Condicao, Seq<char>, bool);

pub open spec fn vista_regra(r: Regra) -> RegraS {
    (r.nome@, r.condicao, r.acao@, r.ligada)
}

pub open spec fn vistas_regras(rs: Seq<Regra>) -> Seq<RegraS> {
    rs.map_values(|r: Regra| vista_regra(r))
}

/// "Sim", em qualquer das formas que a tabela aceita.
pub open spec fn e_sim(s: Seq<char>) -> bool {
    s == "sim"@ || s == "s"@ || s == "true"@ || s == "1"@
}

/// Os campos de uma linha: cortada em `|`, cada pedaço sem o branco das pontas.
pub open spec fn campos_da_linha(l: Seq<char>) -> Seq<Seq<char>> {
    pedacos_por(l, '|').map_values(|x: Seq<char>| aparado(x))
}

/// A regra que uma linha da tabela descreve: `nome | condição | ação | ligada`.
/// Linha vazia, comentário (`#`), com menos de três campos ou de condição
/// desconhecida não descreve regra nenhuma.
pub open spec fn regra_de(linha: Seq<char>) -> Option<RegraS> {
    let l = aparado(linha);
    if l.len() == 0 || l[0] == '#' {
        None
    } else {
        let p = campos_da_linha(l);
        if p.len() < 3 {
            None
        } else {
            match condicao_de(p[1]) {
                None => None,
                Some(c) => Some((p[0], c, p[2], p.len() > 3 && e_sim(minusculas(p[3])))),
            }
        }
    }
}

pub open spec fn regras_de(ls: Seq<Seq<char>>) -> Seq<RegraS>
    decreases ls.len(),
{
    if ls.len() == 0 {
        seq![]
    } else {
        match regra_de(ls.last()) {
            Some(r) => regras_de(ls.drop_last()).push(r),
            None => regras_de(ls.drop_last()),
        }
    }
}

fn regra_da_linha(linha: &[char]) -> (r: Option<Regra>)
    ensures
        match regra_de(linha@) {
            Some(x) => r matches Some(y) && vista_regra(y) == x,
            None => r is None,
        },
{
    let l = aparar(linha);
    if l.len() == 0 || l[0] == '#' {
        return None;
    }
    let pedacos = cortar(l.as_slice(), '|');
    let mut p: Vec<Vec<char>> = Vec::new();
    let mut i: usize = 0;
    while i < pedacos.len()
        invariant
            i <= pedacos@.len(),
            vistas(pedacos@) == pedacos_por(l@, '|'),
            vistas(p@) == campos_da_linha(l@).take(i as int),
        decreases pedacos.len() - i,
    {
        let ghost antes = p@;
        p.push(aparar(pedacos[i].as_slice()));
        assert(vistas(p@) =~= campos_da_linha(l@).take(i + 1)) by {
            assert(vistas(p@) =~= vistas(antes).push(aparado(pedacos@[i as int]@)));
        }
        i = i + 1;
    }
    assert(campos_da_linha(l@).take(pedacos@.len() as int) =~= campos_da_linha(l@));
    if p.len() < 3 {
        return None;
    }
    assert(vistas(p@)[1] == p@[1]@);
    let s1 = string_de(p[1].as_slice());
    let c = match Condicao::ler(s1.as_str()) {
        Some(c) => c,
        None => {
            return None;
        },
    };
    let ligada = if p.len() > 3 {
        let s3 = string_de(p[3].as_slice());
        let b = para_minusculas(s3.as_str());
        let bv = caracteres_de(&b);
        igual_str(bv.as_slice(), "sim") || igual_str(bv.as_slice(), "s") || igual_str(
            bv.as_slice(),
            "true",
        ) || igual_str(bv.as_slice(), "1")
    } else {
        false
    };
    assert(vistas(p@)[0] == p@[0]@);
    assert(vistas(p@)[2] == p@[2]@);
    Some(
        Regra {
            nome: string_de(p[0].as_slice()),
            condicao: c,
            acao: string_de(p[2].as_slice()),
            ligada,
        },
    )
}

/// As regras de uma tabela em texto, uma por linha.
pub fn ler(texto: &str) -> (r: Vec<Regra>)
    ensures
        vistas_regras(r@) == regras_de(linhas(texto@)),
{
    let ls = linhas_de_texto(texto);
    let ghost lv = linhas(texto@);
    let mut fora: Vec<Regra> = Vec::new();
    let mut i: usize = 0;
    assert(lv.take(0) =~= Seq::<Seq<char>>::empty());
    assert(vistas_regras(fora@) =~= Seq::<RegraS>::empty());
    while i < ls.len()
        invariant
            i <= ls@.len(),
            vistas(ls@) == lv,
            vistas_regras(fora@) == regras_de(lv.take(i as int)),
        decreases ls.len() - i,
    {
        assert(lv.take(i + 1).drop_last() =~= lv.take(i as int));
        assert(lv.take(i + 1).last() == ls@[i as int]@);
        let ghost antes = fora@;
        match regra_da_linha(ls[i].as_slice()) {
            Some(r) => {
                fora.push(r);
                assert(vistas_regras(fora@) =~= vistas_regras(antes).push(vista_regra(r)));
            },
            None => {},
        }
        i = i + 1;
    }
    assert(lv.take(ls@.len() as int) =~= lv);
    fora
}

/// A tabela de regras: `nome | condição | ação | ligada`. Vem desligada por padrão —
/// ligar é um pedido, não uma configuração.
pub const TABELA: &'static str = "# nome | condicao | acao | ligada\nretomar_musica | musica_parada | alternar_musica | nao\n";

pub fn tabela() -> (r: Vec<Regra>)
    ensures
        vistas_regras(r@) == regras_de(linhas(TABELA@)),
{
    ler(TABELA)
}

// ───────────────────────────── o vigia

/// O estado que decide se a regra age.
#[derive(Debug)]
pub struct Vigia {
    /// A última vez que a regra mandou tocar (ms).
    ultimo_disparo: Option<u64>,
    /// Disparos seguidos sem o mundo mudar.
    seguidos: u32,
    /// Suspensa porque o dono pausou. Só volta quando tocar de novo.
    suspensa: bool,
    /// O estado visto na última olhada.
    tocava: bool,
}

/// O vigia visto como (último disparo, seguidos, suspensa, tocava).
pub type VigiaS = (Option<u64>, u32, bool, bool);

impl View for Vigia {
    type V = VigiaS;

    closed spec fn view(&self) -> VigiaS {
        (self.ultimo_disparo, self.seguidos, self.suspensa, self.tocava)
    }
}

impl Default for Vigia {
    fn default() -> (r: Self)
        ensures
            r@ == (None::<u64>, 0u32, false, false),
    {
        Vigia { ultimo_disparo: None, seguidos: 0, suspensa: false, tocava: false }
    }
}

/// O que fazer depois de olhar o mundo.
#[derive(Clone, Copy, Debug, PartialEq, Eq, Structural)]
pub enum Passo {
    /// Nada a fazer.
    Quieto,
    /// Dispara a ação.
    Age,
    /// Suspensa: o dono pausou de propósito.
    Suspensa,
    /// Desistiu: a ação não resolveu depois de [`TETO_SEGUIDO`] tentativas.
    Desistiu,
}

/// A regra disparou há menos de [`ESPACO_MS`] (o relógio não volta: um `agora`
/// anterior ao disparo conta como zero de distância).
pub open spec fn recem_disparou(ultimo: Option<u64>, agora: u64) -> bool {
    match ultimo {
        Some(t) => (if agora >= t {
            agora - t
        } else {
            0
        }) < ESPACO_MS,
        None => false,
    }
}

/// Uma olhada: o estado seguinte e o que fazer.
pub open spec fn olhada(s: VigiaS, tocando: bool, agora: u64) -> (VigiaS, Passo) {
    if tocando {
        ((s.0, 0, false, true), Passo::Quieto)
    } else if s.2 {
        ((s.0, s.1, true, false), Passo::Suspensa)
    } else if s.1 >= TETO_SEGUIDO {
        ((s.0, s.1, false, false), Passo::Desistiu)
    } else if recem_disparou(s.0, agora) {
        ((s.0, s.1, false, false), Passo::Quieto)
    } else {
        ((Some(agora), (s.1 + 1) as u32, false, false), Passo::Age)
    }
}

impl Vigia {
    /// Decide o que fazer, dado o estado do mundo: `tocando` é o que a ponte
    /// reportou, `agora` o relógio em milissegundos.
    ///
    /// Voltou a tocar: zera tudo, inclusive a suspensão. Parou: não tenta
    /// adivinhar quem parou; suspensa fica suspensa, no teto desiste, logo depois de
    /// um disparo espera o app obedecer, e no resto age.
    pub fn olhar(&mut self, tocando: bool, agora: u64) -> (r: Passo)
        ensures
            (final(self)@, r) == olhada(old(self)@, tocando, agora),
    {
        if tocando {
            self.suspensa = false;
            self.seguidos = 0;
            self.tocava = true;
            return Passo::Quieto;
        }
        let recem = match self.ultimo_disparo {
            Some(t) => agora.saturating_sub(t) < ESPACO_MS,
            None => false,
        };
        self.tocava = false;
        if self.suspensa {
            return Passo::Suspensa;
        }
        if self.seguidos >= TETO_SEGUIDO {
            return Passo::Desistiu;
        }
        if recem {
            return Passo::Quieto;
        }
        self.seguidos = self.seguidos + 1;
        self.ultimo_disparo = Some(agora);
        Passo::Age
    }

    /// O dono mandou pausar pela Teka. Suspende sem esperar a próxima olhada.
    pub fn dono_pausou(&mut self)
        ensures
            final(self)@ == (old(self)@.0, old(self)@.1, true, false),
    {
        self.suspensa = true;
        self.tocava = false;
    }
}

/// Uma sequência de olhadas com a música parada: o estado final e quantas vezes a
/// regra agiu.
pub open spec fn corrida(s: VigiaS, tempos: Seq<u64>) -> (VigiaS, nat)
    decreases tempos.len(),
{
    if tempos.len() == 0 {
        (s, 0)
    } else {
        let (s1, p) = olhada(s, false, tempos[0]);
        let (s2, n) = corrida(s1, tempos.drop_first());
        (s2, if p == Passo::Age {
            n + 1
        } else {
            n
        })
    }
}

/// Com a música parada, a regra age no máximo [`TETO_SEGUIDO`] vezes seguidas,
/// contando as que já tinha feito — não importa quanto tempo passe.
pub proof fn lei_no_maximo_o_teto(s: VigiaS, tempos: Seq<u64>)
    requires
        s.1 <= TETO_SEGUIDO,
    ensures
        corrida(s, tempos).1 + s.1 <= TETO_SEGUIDO,
        corrida(s, tempos).1 + s.1 == corrida(s, tempos).0.1,
    decreases tempos.len(),
{
    if tempos.len() > 0 {
        lei_no_maximo_o_teto(olhada(s, false, tempos[0]).0, tempos.drop_first());
    }
}

/// Depois que o dono pausa, nenhuma olhada com a música parada faz a regra agir.
pub proof fn lei_pausa_do_dono_segura(s: VigiaS, tempos: Seq<u64>)
    requires
        s.2,
    ensures
        corrida(s, tempos).1 == 0,
        corrida(s, tempos).0.2,
    decreases tempos.len(),
{
    if tempos.len() > 0 {
        lei_pausa_do_dono_segura(olhada(s, false, tempos[0]).0, tempos.drop_first());
    }
}

/// Depois de agir, a regra não age de novo antes de [`ESPACO_MS`]: dá tempo do app
/// obedecer.
pub proof fn lei_espera_o_app_obedecer(s: VigiaS, t1: u64, t2: u64)
    requires
        olhada(s, false, t1).1 == Passo::Age,
        t2 < t1 + ESPACO_MS,
    ensures
        olhada(olhada(s, false, t1).0, false, t2).1 != Passo::Age,
{
}

/// Voltar a tocar reativa a regra: zera os disparos e tira a suspensão.
pub proof fn lei_tocar_reativa(s: VigiaS, t: u64)
    ensures
        olhada(s, true, t) == ((s.0, 0u32, false, true), Passo::Quieto),
        !olhada(s, true, t).0.2,
{
}

// ───────────────────────────── o vigia numa sequência qualquer

/// O que acontece ao vigia: uma olhada (tocando, agora) ou a pausa do dono.
pub enum EventoS {
    Olhar(bool, u64),
    Pausa,
}

pub open spec fn tempo_de(e: EventoS) -> u64 {
    match e {
        EventoS::Olhar(_, a) => a,
        EventoS::Pausa => 0,
    }
}

pub open spec fn e_toque(e: EventoS) -> bool {
    e matches EventoS::Olhar(t, _) && t
}

/// Uma olhada com a música parada.
pub open spec fn e_parada(e: EventoS) -> bool {
    e matches EventoS::Olhar(t, _) && !t
}

/// Um evento: o estado seguinte e, se foi uma olhada, o passo.
pub open spec fn evento(s: VigiaS, e: EventoS) -> (VigiaS, Option<Passo>) {
    match e {
        EventoS::Olhar(t, a) => (olhada(s, t, a).0, Some(olhada(s, t, a).1)),
        EventoS::Pausa => ((s.0, s.1, true, false), None),
    }
}

/// O estado do vigia (nascido limpo) depois dos `k` primeiros eventos.
pub open spec fn estado_em(evs: Seq<EventoS>, k: int) -> VigiaS
    decreases k,
{
    if k <= 0 {
        (None, 0u32, false, false)
    } else {
        evento(estado_em(evs, k - 1), evs[k - 1]).0
    }
}

/// A resposta ao evento `k`.
pub open spec fn resposta(evs: Seq<EventoS>, k: int) -> Option<Passo> {
    evento(estado_em(evs, k), evs[k]).1
}

pub open spec fn agiu(evs: Seq<EventoS>, k: int) -> bool {
    resposta(evs, k) == Some(Passo::Age)
}

/// Onde começa o trecho sem música tocando que termina em `k`: logo depois do
/// último `Olhar(true, _)` antes de `k`, ou o começo.
pub open spec fn desde_o_toque(evs: Seq<EventoS>, k: int) -> int
    decreases k,
{
    if k <= 0 {
        0
    } else if e_toque(evs[k - 1]) {
        k
    } else {
        desde_o_toque(evs, k - 1)
    }
}

/// Quantas vezes a regra agiu entre os eventos `i` (incluso) e `j` (excluso).
pub open spec fn vezes_que_agiu(evs: Seq<EventoS>, i: int, j: int) -> nat
    decreases j - i,
{
    if j <= i {
        0
    } else {
        vezes_que_agiu(evs, i, j - 1) + if agiu(evs, j - 1) { 1nat } else { 0nat }
    }
}

pub open spec fn pausou_entre(evs: Seq<EventoS>, i: int, j: int) -> bool {
    exists|p: int| i <= p < j && #[trigger] evs[p] == EventoS::Pausa
}

proof fn lema_desde_o_toque(evs: Seq<EventoS>, k: int)
    requires
        0 <= k,
    ensures
        0 <= desde_o_toque(evs, k) <= k,
        forall|p: int| desde_o_toque(evs, k) <= p < k ==> !e_toque(#[trigger] evs[p]),
    decreases k,
{
    if k > 0 && !e_toque(evs[k - 1]) {
        lema_desde_o_toque(evs, k - 1);
    }
}

proof fn lema_vezes_partes(evs: Seq<EventoS>, i: int, m: int, j: int)
    requires
        i <= m <= j,
    ensures
        vezes_que_agiu(evs, i, j) == vezes_que_agiu(evs, i, m) + vezes_que_agiu(evs, m, j),
    decreases j - m,
{
    if m < j {
        lema_vezes_partes(evs, i, m, j - 1);
    }
}

/// O que vale do estado depois dos `k` primeiros eventos.
proof fn lema_vigia_inv(evs: Seq<EventoS>, k: int)
    requires
        0 <= k <= evs.len(),
    ensures
        estado_em(evs, k).1 == vezes_que_agiu(evs, desde_o_toque(evs, k), k),
        estado_em(evs, k).1 <= TETO_SEGUIDO,
        estado_em(evs, k).2 <==> pausou_entre(evs, desde_o_toque(evs, k), k),
        estado_em(evs, k).0 is None ==> forall|i: int| 0 <= i < k ==> !agiu(evs, i),
        estado_em(evs, k).0 matches Some(t) ==> forall|i: int|
            0 <= i < k && #[trigger] agiu(evs, i) ==> tempo_de(evs[i]) <= t,
    decreases k,
{
    if k > 0 {
        let j = k - 1;
        lema_vigia_inv(evs, j);
        lema_desde_o_toque(evs, j);
        let s = estado_em(evs, j);
        let e = evs[j];
        let d = desde_o_toque(evs, j);
        assert(estado_em(evs, k) == evento(s, e).0);
        assert(resposta(evs, j) == evento(s, e).1);
        if e_toque(e) {
            assert(desde_o_toque(evs, k) == k);
            assert(vezes_que_agiu(evs, k, k) == 0);
            assert(!pausou_entre(evs, k, k));
        } else {
            assert(desde_o_toque(evs, k) == d);
            assert(vezes_que_agiu(evs, d, k) == vezes_que_agiu(evs, d, j) + if agiu(evs, j) { 1nat } else { 0nat });
            if e == EventoS::Pausa {
                assert(pausou_entre(evs, d, k)) by {
                    assert(evs[j] == EventoS::Pausa);
                }
            } else {
                assert(pausou_entre(evs, d, k) <==> pausou_entre(evs, d, j)) by {
                    if pausou_entre(evs, d, k) {
                        let p = choose|p: int| d <= p < k && #[trigger] evs[p] == EventoS::Pausa;
                        assert(p != j);
                    }
                }
            }
        }
        assert forall|i: int| 0 <= i < k && #[trigger] agiu(evs, i) implies estado_em(evs, k).0 is Some by {
            if i == j {
            } else {
                assert(s.0 is Some);
            }
        }
        if estado_em(evs, k).0 is Some {
            let t = estado_em(evs, k).0->0;
            assert forall|i: int| 0 <= i < k && #[trigger] agiu(evs, i) implies tempo_de(evs[i]) <= t by {
                if i < j {
                    assert(s.0 is Some);
                    let t0 = s.0->0;
                    assert(tempo_de(evs[i]) <= t0);
                    if agiu(evs, j) {
                        assert(t == tempo_de(e));
                        assert(!recem_disparou(s.0, tempo_de(e)));
                    } else {
                        assert(t == t0);
                    }
                }
            }
        }
    }
}

/// O vigia numa sequência qualquer de olhadas e pausas, nascido limpo:
/// - olhar com a música tocando sempre dá `Quieto`;
/// - a primeira olhada, com a música parada, age;
/// - entre dois toques (ou antes do primeiro) a regra age no máximo
///   [`TETO_SEGUIDO`] vezes;
/// - entre duas vezes que agiu passam pelo menos [`ESPACO_MS`]: nunca tenta de novo
///   antes de o app poder reagir.
pub proof fn lei_o_vigia_em_qualquer_sequencia(evs: Seq<EventoS>)
    ensures
        forall|k: int| 0 <= k < evs.len() && e_toque(#[trigger] evs[k]) ==> resposta(evs, k) == Some(Passo::Quieto),
        evs.len() > 0 && e_parada(evs[0]) ==> agiu(evs, 0),
        forall|i: int, j: int|
            0 <= i <= j <= evs.len() && (forall|p: int| i <= p < j ==> !e_toque(#[trigger] evs[p]))
                ==> #[trigger] vezes_que_agiu(evs, i, j) <= TETO_SEGUIDO,
        forall|i: int, j: int|
            0 <= i < j < evs.len() && #[trigger] agiu(evs, i) && #[trigger] agiu(evs, j) ==> tempo_de(evs[j])
                >= tempo_de(evs[i]) + ESPACO_MS,
{
    assert forall|i: int, j: int|
        0 <= i <= j <= evs.len() && (forall|p: int| i <= p < j ==> !e_toque(#[trigger] evs[p]))
            implies #[trigger] vezes_que_agiu(evs, i, j) <= TETO_SEGUIDO by {
        lema_vigia_inv(evs, j);
        lema_desde_o_toque(evs, j);
        let d = desde_o_toque(evs, j);
        if i < d {
            assert(e_toque(evs[d - 1])) by {
                lema_toque_antes(evs, j);
            }
            assert(!e_toque(evs[d - 1]));
        }
        lema_vezes_partes(evs, d, i, j);
    }
    assert forall|i: int, j: int|
        0 <= i < j < evs.len() && #[trigger] agiu(evs, i) && #[trigger] agiu(evs, j) implies tempo_de(evs[j])
            >= tempo_de(evs[i]) + ESPACO_MS by {
        lema_vigia_inv(evs, j);
        let s = estado_em(evs, j);
        assert(s.0 is Some);
        let t = s.0->0;
        assert(tempo_de(evs[i]) <= t);
        assert(!recem_disparou(s.0, tempo_de(evs[j])));
    }
}

proof fn lema_toque_antes(evs: Seq<EventoS>, k: int)
    requires
        0 <= k,
        desde_o_toque(evs, k) > 0,
    ensures
        e_toque(evs[desde_o_toque(evs, k) - 1]),
    decreases k,
{
    if k > 0 && !e_toque(evs[k - 1]) {
        lema_toque_antes(evs, k - 1);
    }
}

/// A pausa do dono segura: depois de uma pausa, toda olhada com a música parada dá
/// `Suspensa` até a música voltar a tocar; voltar a tocar dá `Quieto` e tira a
/// suspensão.
pub proof fn lei_a_pausa_segura_ate_tocar(evs: Seq<EventoS>)
    ensures
        forall|i: int, j: int|
            0 <= i < j < evs.len() && #[trigger] evs[i] == EventoS::Pausa && (forall|p: int|
                i < p < j ==> !e_toque(#[trigger] evs[p])) && e_parada(#[trigger] evs[j]) ==> resposta(evs, j) == Some(Passo::Suspensa),
        forall|k: int| 0 <= k < evs.len() && e_toque(#[trigger] evs[k]) ==> !estado_em(evs, k + 1).2,
{
    assert forall|i: int, j: int|
        0 <= i < j < evs.len() && #[trigger] evs[i] == EventoS::Pausa && (forall|p: int|
            i < p < j ==> !e_toque(#[trigger] evs[p])) && e_parada(#[trigger] evs[j]) implies resposta(evs, j) == Some(Passo::Suspensa) by {
        lema_vigia_inv(evs, j);
        lema_desde_o_toque(evs, j);
        let d = desde_o_toque(evs, j);
        if i < d {
            lema_toque_antes(evs, j);
            assert(!e_toque(evs[d - 1]));
        }
        assert(pausou_entre(evs, d, j)) by {
            assert(evs[i] == EventoS::Pausa);
        }
    }
    assert forall|k: int| 0 <= k < evs.len() && e_toque(#[trigger] evs[k]) implies !estado_em(evs, k + 1).2 by {
        assert(estado_em(evs, k + 1) == evento(estado_em(evs, k), evs[k]).0);
    }
}

// ───────────────────────────── as regras ligadas nesta execução

/// As regras da tabela, quais estão ligadas agora, e o vigia.
///
/// A tabela diz o **padrão**; isto diz o estado de agora. Ligar uma regra é um
/// pedido falado ("toda vez que a música parar, retoma"), não uma configuração.
#[derive(Debug)]
pub struct Regras {
    tabela: Vec<Regra>,
    ligadas: Vec<String>,
    vigia: Vigia,
}

/// Os nomes das regras ligadas de saída.
pub open spec fn ligadas_de(t: Seq<RegraS>) -> Seq<Seq<char>>
    decreases t.len(),
{
    if t.len() == 0 {
        seq![]
    } else if t.last().3 {
        ligadas_de(t.drop_last()).push(t.last().0)
    } else {
        ligadas_de(t.drop_last())
    }
}

/// `ls` sem as ocorrências de `nome`.
pub open spec fn sem_nome(ls: Seq<Seq<char>>, nome: Seq<char>) -> Seq<Seq<char>>
    decreases ls.len(),
{
    if ls.len() == 0 {
        seq![]
    } else if ls.last() == nome {
        sem_nome(ls.drop_last(), nome)
    } else {
        sem_nome(ls.drop_last(), nome).push(ls.last())
    }
}

/// As regras da tabela cujo nome está ligado, na ordem da tabela.
pub open spec fn ativas_de(t: Seq<RegraS>, ligadas: Seq<Seq<char>>) -> Seq<RegraS>
    decreases t.len(),
{
    if t.len() == 0 {
        seq![]
    } else if ligadas.contains(t.last().0) {
        ativas_de(t.drop_last(), ligadas).push(t.last())
    } else {
        ativas_de(t.drop_last(), ligadas)
    }
}

pub open spec fn na_tabela(t: Seq<RegraS>, nome: Seq<char>) -> bool {
    exists|i: int| 0 <= i < t.len() && t[i].0 == nome
}

/// Os nomes da tabela são todos diferentes.
pub open spec fn nomes_distintos(t: Seq<RegraS>) -> bool {
    forall|i: int, j: int| 0 <= i < j < t.len() ==> #[trigger] t[i].0 != #[trigger] t[j].0
}

proof fn lema_ligadas_de(t: Seq<RegraS>)
    ensures
        forall|x: Seq<char>| #[trigger] ligadas_de(t).contains(x) ==> na_tabela(t, x),
        nomes_distintos(t) ==> ligadas_de(t).no_duplicates(),
    decreases t.len(),
{
    if t.len() > 0 {
        let w = t.drop_last();
        lema_ligadas_de(w);
        let l = ligadas_de(t);
        let lw = ligadas_de(w);
        assert forall|x: Seq<char>| #[trigger] l.contains(x) implies na_tabela(t, x) by {
            let k = choose|k: int| 0 <= k < l.len() && l[k] == x;
            if k < lw.len() {
                assert(lw[k] == x);
                assert(lw.contains(x));
                let i = choose|i: int| 0 <= i < w.len() && w[i].0 == x;
                assert(t[i].0 == x);
            } else {
                assert(t[t.len() - 1].0 == x);
            }
        }
        if nomes_distintos(t) {
            assert(nomes_distintos(w)) by {
                assert forall|i: int, j: int| 0 <= i < j < w.len() implies #[trigger] w[i].0 != #[trigger] w[j].0 by {
                    assert(t[i] == w[i] && t[j] == w[j]);
                }
            }
            if t.last().3 {
                assert(!lw.contains(t.last().0)) by {
                    if lw.contains(t.last().0) {
                        let i = choose|i: int| 0 <= i < w.len() && w[i].0 == t.last().0;
                        assert(t[i].0 == t[t.len() - 1].0);
                    }
                }
                assert forall|i: int, j: int| 0 <= i < j < l.len() implies l[i] != l[j] by {
                    if j == l.len() - 1 {
                        assert(lw[i] == l[i]);
                        assert(lw.contains(l[i]));
                    } else {
                        assert(lw[i] == l[i] && lw[j] == l[j]);
                    }
                }
            }
        }
    }
}

proof fn lema_sem_nome(ls: Seq<Seq<char>>, nome: Seq<char>)
    ensures
        forall|x: Seq<char>| #[trigger] sem_nome(ls, nome).contains(x) ==> ls.contains(x) && x != nome,
        ls.no_duplicates() ==> sem_nome(ls, nome).no_duplicates(),
    decreases ls.len(),
{
    if ls.len() > 0 {
        let w = ls.drop_last();
        lema_sem_nome(w, nome);
        let s = sem_nome(ls, nome);
        let sw = sem_nome(w, nome);
        assert forall|x: Seq<char>| #[trigger] s.contains(x) implies ls.contains(x) && x != nome by {
            let k = choose|k: int| 0 <= k < s.len() && s[k] == x;
            if k < sw.len() {
                assert(sw[k] == x);
                assert(sw.contains(x));
                let i = choose|i: int| 0 <= i < w.len() && w[i] == x;
                assert(ls[i] == x);
            } else {
                assert(ls[ls.len() - 1] == x);
            }
        }
        if ls.no_duplicates() {
            assert(w.no_duplicates()) by {
                assert forall|i: int, j: int| 0 <= i < w.len() && 0 <= j < w.len() && i != j implies w[i] != w[j] by {
                    assert(ls[i] == w[i] && ls[j] == w[j]);
                }
            }
            if ls.last() != nome {
                assert(!sw.contains(ls.last())) by {
                    if sw.contains(ls.last()) {
                        assert(w.contains(ls.last()));
                        let i = choose|i: int| 0 <= i < w.len() && w[i] == ls.last();
                        assert(ls[i] == ls[ls.len() - 1]);
                    }
                }
                assert forall|i: int, j: int| 0 <= i < s.len() && 0 <= j < s.len() && i != j implies s[i] != s[j] by {
                    if j == s.len() - 1 {
                        assert(sw[i] == s[i]);
                        assert(sw.contains(s[i]));
                    } else if i == s.len() - 1 {
                        assert(sw[j] == s[j]);
                        assert(sw.contains(s[j]));
                    } else {
                        assert(sw[i] == s[i] && sw[j] == s[j]);
                    }
                }
            }
        }
    }
}

fn contem_nome(ls: &Vec<String>, nome: &[char]) -> (r: bool)
    ensures
        r == ls@.map_values(|s: String| s@).contains(nome@),
{
    let ghost v = ls@.map_values(|s: String| s@);
    let mut i: usize = 0;
    while i < ls.len()
        invariant
            i <= ls@.len(),
            v == ls@.map_values(|s: String| s@),
            forall|k: int| 0 <= k < i ==> v[k] != nome@,
        decreases ls.len() - i,
    {
        let c = caracteres_de(&ls[i]);
        if iguais(c.as_slice(), nome) {
            assert(v[i as int] == nome@);
            return true;
        }
        i = i + 1;
    }
    false
}

impl Regras {
    pub closed spec fn tabela_s(&self) -> Seq<RegraS> {
        vistas_regras(self.tabela@)
    }

    pub closed spec fn ligadas_s(&self) -> Seq<Seq<char>> {
        self.ligadas@.map_values(|s: String| s@)
    }

    pub closed spec fn vigia_s(&self) -> VigiaS {
        self.vigia@
    }

    /// O estado inicial: liga o que a tabela diz que vem ligado, e o vigia limpo.
    pub fn novas(tabela: Vec<Regra>) -> (r: Regras)
        ensures
            r.tabela_s() == vistas_regras(tabela@),
            r.ligadas_s() == ligadas_de(vistas_regras(tabela@)),
            r.vigia_s() == (None::<u64>, 0u32, false, false),
            nomes_distintos(vistas_regras(tabela@)) ==> r.ligadas_s().no_duplicates(),
            forall|x: Seq<char>| #[trigger] r.ligadas_s().contains(x) ==> na_tabela(vistas_regras(tabela@), x),
    {
        proof {
            lema_ligadas_de(vistas_regras(tabela@));
        }
        let mut ligadas: Vec<String> = Vec::new();
        let mut i: usize = 0;
        let ghost tv = vistas_regras(tabela@);
        assert(tv.take(0) =~= Seq::<RegraS>::empty());
        assert(ligadas@.map_values(|s: String| s@) =~= Seq::<Seq<char>>::empty());
        while i < tabela.len()
            invariant
                i <= tabela@.len(),
                tv == vistas_regras(tabela@),
                ligadas@.map_values(|s: String| s@) == ligadas_de(tv.take(i as int)),
            decreases tabela.len() - i,
        {
            assert(tv.take(i + 1).drop_last() =~= tv.take(i as int));
            assert(tv.take(i + 1).last() == vista_regra(tabela@[i as int]));
            let ghost antes = ligadas@;
            if tabela[i].ligada {
                ligadas.push(tabela[i].nome.clone());
                assert(ligadas@.map_values(|s: String| s@) =~= antes.map_values(|s: String| s@).push(
                    tabela@[i as int].nome@,
                ));
            }
            i = i + 1;
        }
        assert(tv.take(tabela@.len() as int) =~= tv);
        Regras { tabela, ligadas, vigia: Vigia::default() }
    }

    /// Liga uma regra pelo nome. Devolve `false` se ela não existe na tabela.
    /// Uma regra recém-ligada começa com o vigia limpo: não herda a suspensão nem o
    /// teto de quando esteve ligada antes.
    pub fn ligar(&mut self, nome: &str) -> (r: bool)
        ensures
            r == na_tabela(old(self).tabela_s(), nome@),
            final(self).tabela_s() == old(self).tabela_s(),
            !r ==> final(self).ligadas_s() == old(self).ligadas_s() && final(self).vigia_s()
                == old(self).vigia_s(),
            r ==> final(self).ligadas_s() == (if old(self).ligadas_s().contains(nome@) {
                old(self).ligadas_s()
            } else {
                old(self).ligadas_s().push(nome@)
            }) && final(self).vigia_s() == (None::<u64>, 0u32, false, false),
            old(self).ligadas_s().no_duplicates() ==> final(self).ligadas_s().no_duplicates(),
    {
        let n = caracteres(nome);
        let mut i: usize = 0;
        let mut achou = false;
        while i < self.tabela.len()
            invariant
                i <= self.tabela@.len(),
                n@ == nome@,
                achou == exists|k: int| 0 <= k < i && vistas_regras(self.tabela@)[k].0 == nome@,
            decreases self.tabela.len() - i,
        {
            let k = caracteres_de(&self.tabela[i].nome);
            if iguais(k.as_slice(), n.as_slice()) {
                achou = true;
            }
            proof {
                assert(vistas_regras(self.tabela@)[i as int].0 == self.tabela@[i as int].nome@);
                if achou {
                    if !exists|k: int| 0 <= k < i && vistas_regras(self.tabela@)[k].0 == nome@ {
                        assert(vistas_regras(self.tabela@)[i as int].0 == nome@);
                    }
                }
            }
            i = i + 1;
        }
        if !achou {
            return false;
        }
        if !contem_nome(&self.ligadas, n.as_slice()) {
            let ghost antes = self.ligadas@;
            let ghost va = antes.map_values(|s: String| s@);
            self.ligadas.push(crate::texto::copiar(nome));
            assert(self.ligadas@.map_values(|s: String| s@) =~= va.push(nome@));
            proof {
                let vn = va.push(nome@);
                if va.no_duplicates() {
                    assert forall|i: int, j: int| 0 <= i < vn.len() && 0 <= j < vn.len() && i != j implies vn[i] != vn[j] by {
                        if j == vn.len() - 1 {
                            assert(va[i] == vn[i]);
                            assert(va.contains(vn[i]));
                        } else if i == vn.len() - 1 {
                            assert(va[j] == vn[j]);
                            assert(va.contains(vn[j]));
                        } else {
                            assert(va[i] == vn[i] && va[j] == vn[j]);
                        }
                    }
                }
            }
        }
        self.vigia = Vigia::default();
        true
    }

    /// Desliga uma regra. Devolve `false` se ela não estava ligada.
    pub fn desligar(&mut self, nome: &str) -> (r: bool)
        ensures
            final(self).ligadas_s() == sem_nome(old(self).ligadas_s(), nome@),
            r == (final(self).ligadas_s().len() != old(self).ligadas_s().len()),
            final(self).tabela_s() == old(self).tabela_s(),
            final(self).vigia_s() == old(self).vigia_s(),
            old(self).ligadas_s().no_duplicates() ==> final(self).ligadas_s().no_duplicates(),
            !final(self).ligadas_s().contains(nome@),
    {
        proof {
            lema_sem_nome(old(self).ligadas_s(), nome@);
        }
        let n = caracteres(nome);
        let ghost v = self.ligadas@.map_values(|s: String| s@);
        let mut novas: Vec<String> = Vec::new();
        let mut i: usize = 0;
        assert(v.take(0) =~= Seq::<Seq<char>>::empty());
        assert(novas@.map_values(|s: String| s@) =~= Seq::<Seq<char>>::empty());
        while i < self.ligadas.len()
            invariant
                i <= self.ligadas@.len(),
                n@ == nome@,
                v == self.ligadas@.map_values(|s: String| s@),
                novas@.map_values(|s: String| s@) == sem_nome(v.take(i as int), nome@),
            decreases self.ligadas.len() - i,
        {
            assert(v.take(i + 1).drop_last() =~= v.take(i as int));
            assert(v.take(i + 1).last() == self.ligadas@[i as int]@);
            let k = caracteres_de(&self.ligadas[i]);
            if !iguais(k.as_slice(), n.as_slice()) {
                let ghost antes = novas@;
                novas.push(self.ligadas[i].clone());
                assert(novas@.map_values(|s: String| s@) =~= antes.map_values(|s: String| s@).push(
                    self.ligadas@[i as int]@,
                ));
            }
            i = i + 1;
        }
        assert(v.take(self.ligadas@.len() as int) =~= v);
        let antes = self.ligadas.len();
        self.ligadas = novas;
        antes != self.ligadas.len()
    }

    pub fn esta_ligada(&self, nome: &str) -> (r: bool)
        ensures
            r == self.ligadas_s().contains(nome@),
    {
        let n = caracteres(nome);
        contem_nome(&self.ligadas, n.as_slice())
    }

    /// As regras que valem agora — a tabela filtrada pelo estado desta execução.
    pub fn ativas(&self) -> (r: Vec<Regra>)
        ensures
            vistas_regras(r@) == ativas_de(self.tabela_s(), self.ligadas_s()),
    {
        let ghost tv = vistas_regras(self.tabela@);
        let mut fora: Vec<Regra> = Vec::new();
        let mut i: usize = 0;
        assert(tv.take(0) =~= Seq::<RegraS>::empty());
        assert(vistas_regras(fora@) =~= Seq::<RegraS>::empty());
        while i < self.tabela.len()
            invariant
                i <= self.tabela@.len(),
                tv == vistas_regras(self.tabela@),
                vistas_regras(fora@) == ativas_de(tv.take(i as int), self.ligadas_s()),
            decreases self.tabela.len() - i,
        {
            assert(tv.take(i + 1).drop_last() =~= tv.take(i as int));
            assert(tv.take(i + 1).last() == vista_regra(self.tabela@[i as int]));
            let k = caracteres_de(&self.tabela[i].nome);
            if contem_nome(&self.ligadas, k.as_slice()) {
                let ghost antes = fora@;
                let r = Regra {
                    nome: self.tabela[i].nome.clone(),
                    condicao: self.tabela[i].condicao,
                    acao: self.tabela[i].acao.clone(),
                    ligada: self.tabela[i].ligada,
                };
                fora.push(r);
                assert(vistas_regras(fora@) =~= vistas_regras(antes).push(
                    vista_regra(self.tabela@[i as int]),
                ));
            }
            i = i + 1;
        }
        assert(tv.take(self.tabela@.len() as int) =~= tv);
        fora
    }

    /// O vigia desta execução.
    pub fn vigia(&self) -> (r: &Vigia)
        ensures
            r@ == self.vigia_s(),
    {
        &self.vigia
    }

    /// Olha o mundo com o vigia desta execução.
    pub fn olhar(&mut self, tocando: bool, agora: u64) -> (r: Passo)
        ensures
            (final(self).vigia_s(), r) == olhada(old(self).vigia_s(), tocando, agora),
            final(self).tabela_s() == old(self).tabela_s(),
            final(self).ligadas_s() == old(self).ligadas_s(),
    {
        self.vigia.olhar(tocando, agora)
    }

    /// O dono pausou: suspende o vigia desta execução.
    pub fn dono_pausou(&mut self)
        ensures
            final(self).vigia_s() == (old(self).vigia_s().0, old(self).vigia_s().1, true, false),
            final(self).tabela_s() == old(self).tabela_s(),
            final(self).ligadas_s() == old(self).ligadas_s(),
    {
        self.vigia.dono_pausou();
    }
}

/// O quarto campo liga a regra exatamente quando, sem o branco das pontas e em
/// minúsculas, é `sim`, `s`, `true` ou `1`; sem quarto campo, a regra vem
/// desligada.
pub proof fn lei_ligada_pelo_quarto_campo(linha: Seq<char>)
    ensures
        regra_de(linha) matches Some(r) ==> {
            let p = campos_da_linha(aparado(linha));
            r.3 <==> (p.len() > 3 && {
                let v = minusculas(p[3]);
                v == "sim"@ || v == "s"@ || v == "true"@ || v == "1"@
            })
        },
{
}

} // verus!
