//! O caminho por onde uma chamada vira efeito no mundo.
//!
//! Junta as três guardas, e a ordem entre elas é o desenho:
//!
//! ```text
//!   Chamada
//!      │
//!      ├─ sem cerimônia devida ──────────────▶ executa direto
//!      │
//!      └─ com efeito que deixa marca
//!             │
//!             ├─ [oficina aberta?] ──▶ redireciona a escrita para a cópia
//!             │                        (reversível: o diário não entra)
//!             │
//!             └─ [oficina fechada]  ──▶ [confirma?] ──▶ [diário] ──▶ executa ──▶ [diário]
//!                                                      iniciado              concluído
//! ```
//!
//! O diário existe para que um efeito **irreversível** não aconteça duas vezes.
//! Dentro da oficina nada é irreversível — descartar desfaz tudo — e journalizar ali
//! faria a Teka se recusar a refazer o que foi descartado.
//!
//! O [`Executor`] decide; o programa pergunta a quem está no terminal, grava o
//! diário no disco e executa, e devolve ao executor o que aconteceu.
use vstd::prelude::*;
use crate::diario::{chave_de, vista_args, Diario, EntradaS, Veredito};
use crate::oficina::Oficina;
use crate::prim::efeito_de;
use crate::prim::Efeito;
use crate::registro::{Chamada, Ferramenta, Registro};
use crate::seguranca::{Modo, Politica};
use crate::texto::{acrescentar_str, caracteres, copiar, decimal, escrever_decimal, string_de};

verus! {

#[derive(Debug)]
pub struct Executor {
    diario: Diario,
    oficina: Option<Oficina>,
    politica: Politica,
    /// Pergunta antes de executar ação com efeito. Desligado por padrão: o
    /// benchmark e o treino não têm ninguém para responder.
    confirmar: bool,
}

/// O que fazer com uma chamada.
#[derive(Debug)]
pub enum Decisao {
    /// Executa sem diário e sem pergunta, com esta política.
    Direto(Politica),
    /// Pergunta a quem está no terminal. Sem terminal, ou com qualquer resposta que
    /// não seja sim, a chamada é recusada; com o sim, decide-se de novo, autorizada.
    Perguntar,
    /// Responde sem executar: o efeito pedido já está no mundo.
    Pronto(String),
    /// Grava `iniciado` no diário (e sincroniza) antes de executar com esta
    /// política; depois grava `concluido` ou `falhou`. `falhou_antes` traz o erro da
    /// tentativa anterior, quando houve.
    Registrar { chave: String, politica: Politica, falhou_antes: Option<String> },
}

/// Pede a cerimônia toda: confirmação e diário.
pub open spec fn pede(f: Ferramenta) -> bool {
    efeito_de(f.prim) == Efeito::Local || efeito_de(f.prim) == Efeito::ParaFora
}

pub open spec fn ja_feito() -> Seq<char> {
    "\n  (ja tinha sido feito; nao repeti)"@
}

pub open spec fn incerto(nome: Seq<char>) -> Seq<char> {
    "'"@ + nome + "' comecou antes e nao se sabe se terminou. Nao vou repetir as cegas — confira e, se precisar, apague a linha correspondente do diario."@
}

impl Executor {
    pub closed spec fn diario_s(&self) -> Map<Seq<char>, EntradaS> {
        self.diario@
    }

    pub closed spec fn diario_wf(&self) -> bool {
        self.diario.wf()
    }

    pub closed spec fn oficina_aberta(&self) -> bool {
        self.oficina is Some
    }

    pub closed spec fn raiz_da_oficina(&self) -> Seq<char> {
        self.oficina->0.raiz_s()
    }

    pub closed spec fn politica_s(&self) -> Politica {
        self.politica
    }

    pub closed spec fn confirma(&self) -> bool {
        self.confirmar
    }

    /// A política que vale agora: dentro da oficina, a raiz é a cópia e o modo é real.
    pub open spec fn efetiva(&self) -> Politica {
        if self.oficina_aberta() {
            Politica {
                modo: Modo::Real,
                raiz: Some(self.politica_raiz_oficina()),
                ..self.politica_s()
            }
        } else {
            self.politica_s()
        }
    }

    pub closed spec fn politica_raiz_oficina(&self) -> String {
        self.oficina->0.raiz_string()
    }

    pub proof fn lema_raiz_da_oficina(&self)
        requires
            self.oficina_aberta(),
        ensures
            self.politica_raiz_oficina()@ == self.raiz_da_oficina(),
    {
        self.oficina->0.lema_raiz();
    }
}

/// A chamada vai parar para perguntar.
pub open spec fn precisa(ex: Executor, fs: Seq<Ferramenta>, c: Chamada) -> bool {
    c.ferramenta < fs.len() && ex.confirma() && pede(fs[c.ferramenta as int])
        && !ex.oficina_aberta()
}

/// O que [`Executor::decidir`] decide.
pub open spec fn decisao_vale(
    r: Result<Decisao, String>,
    ex: Executor,
    fs: Seq<Ferramenta>,
    c: Chamada,
    autorizado: bool,
) -> bool {
    if c.ferramenta >= fs.len() {
        r matches Err(e) && e@ == "ferramenta "@ + decimal(c.ferramenta as u64) + " nao existe"@
    } else {
        let f = fs[c.ferramenta as int];
        if !pede(f) || ex.oficina_aberta() {
            r matches Ok(Decisao::Direto(p)) && p == ex.efetiva()
        } else if ex.confirma() && !autorizado {
            r matches Ok(Decisao::Perguntar)
        } else {
            let k = chave_de(f.nome@, vista_args(c.args@));
            if !ex.diario_s().contains_key(k) {
                r matches Ok(Decisao::Registrar { chave, politica, falhou_antes }) && chave@ == k
                    && politica == ex.efetiva() && falhou_antes is None
            } else {
                let e = ex.diario_s()[k];
                if e.0 {
                    r matches Ok(Decisao::Pronto(t)) && t@ == e.2 + ja_feito()
                } else if e.1 {
                    r matches Ok(Decisao::Registrar { chave, politica, falhou_antes }) && chave@
                        == k && politica == ex.efetiva() && (falhou_antes matches Some(x) && x@
                        == e.2)
                } else {
                    r matches Err(m) && m@ == incerto(f.nome@)
                }
            }
        }
    }
}

fn clonar_opcao(o: &Option<String>) -> (r: Option<String>)
    ensures
        r == *o,
{
    match o {
        Some(s) => Some(s.clone()),
        None => None,
    }
}

fn clonar_politica(p: &Politica) -> (r: Politica)
    ensures
        r == *p,
{
    Politica {
        modo: p.modo,
        raiz: clonar_opcao(&p.raiz),
        max_leitura: p.max_leitura,
        processos: p.processos,
        tela: clonar_opcao(&p.tela),
    }
}

impl Executor {
    /// Um executor sobre este diário (já relido do disco) e esta política.
    pub fn novo(diario: Diario, politica: Politica) -> (r: Executor)
        requires
            diario.wf(),
        ensures
            r.diario_wf(),
            r.diario_s() == diario@,
            !r.oficina_aberta(),
            r.politica_s() == politica,
            !r.confirma(),
    {
        Executor { diario, oficina: None, politica, confirmar: false }
    }

    /// Liga a confirmação. Chamar só onde há gente para responder.
    pub fn com_confirmacao(self, sim: bool) -> (r: Executor)
        ensures
            r.confirma() == sim,
            r.diario_wf() == self.diario_wf(),
            r.diario_s() == self.diario_s(),
            r.oficina_aberta() == self.oficina_aberta(),
            r.raiz_da_oficina() == self.raiz_da_oficina(),
            r.politica_s() == self.politica_s(),
            r.efetiva() == self.efetiva(),
    {
        Executor { confirmar: sim, ..self }
    }

    pub fn politica(&self) -> (r: &Politica)
        ensures
            *r == self.politica_s(),
    {
        &self.politica
    }

    pub fn tem_oficina(&self) -> (r: bool)
        ensures
            r == self.oficina_aberta(),
    {
        self.oficina.is_some()
    }

    /// O diário, para o programa saber onde gravar.
    pub fn diario(&self) -> (r: &Diario)
        ensures
            r@ == self.diario_s(),
            r.wf() == self.diario_wf(),
    {
        &self.diario
    }

    /// Passa a trabalhar na oficina já aberta: enquanto estiver aberta, toda escrita
    /// cai na cópia. Recusa uma segunda oficina.
    pub fn abrir_oficina(&mut self, of: Oficina) -> (r: Result<String, String>)
        ensures
            old(self).oficina_aberta() ==> (r matches Err(e) && e@
                == "já existe uma oficina aberta; aplique ou descarte antes"@) && *final(self)
                == *old(self),
            !old(self).oficina_aberta() ==> (r matches Ok(raiz) && raiz@ == of.raiz_s())
                && final(self).oficina_aberta() && final(self).raiz_da_oficina() == of.raiz_s(),
            final(self).diario_s() == old(self).diario_s(),
            final(self).diario_wf() == old(self).diario_wf(),
            final(self).politica_s() == old(self).politica_s(),
            final(self).confirma() == old(self).confirma(),
    {
        if self.oficina.is_some() {
            return Err(copiar("já existe uma oficina aberta; aplique ou descarte antes"));
        }
        let raiz = of.raiz().clone();
        self.oficina = Some(of);
        Ok(raiz)
    }

    /// A oficina aberta, se há uma.
    pub fn oficina(&self) -> (r: &Option<Oficina>)
        ensures
            r is Some == self.oficina_aberta(),
            r matches Some(of) ==> of.raiz_s() == self.raiz_da_oficina(),
    {
        &self.oficina
    }

    /// Fecha a oficina para aplicar: o programa integra as mudanças na pasta real
    /// (com backup) e joga a cópia fora.
    pub fn aplicar_oficina(&mut self) -> (r: Option<Oficina>)
        ensures
            r is Some == old(self).oficina_aberta(),
            !final(self).oficina_aberta(),
            final(self).diario_s() == old(self).diario_s(),
            final(self).diario_wf() == old(self).diario_wf(),
            final(self).politica_s() == old(self).politica_s(),
            final(self).confirma() == old(self).confirma(),
    {
        self.oficina.take()
    }

    /// Fecha a oficina para descartar: a pasta real nunca foi tocada, e o diário
    /// não guardou nada do que se fez nela.
    pub fn descartar_oficina(&mut self) -> (r: Option<Oficina>)
        ensures
            r is Some == old(self).oficina_aberta(),
            !final(self).oficina_aberta(),
            final(self).diario_s() == old(self).diario_s(),
            final(self).diario_wf() == old(self).diario_wf(),
            final(self).politica_s() == old(self).politica_s(),
            final(self).confirma() == old(self).confirma(),
    {
        self.oficina.take()
    }

    /// A política que vale agora: dentro da oficina, a raiz é a cópia.
    pub fn politica_efetiva(&self) -> (r: Politica)
        ensures
            r == self.efetiva(),
    {
        match &self.oficina {
            Some(of) => Politica {
                modo: Modo::Real,
                raiz: Some(of.raiz().clone()),
                max_leitura: self.politica.max_leitura,
                processos: self.politica.processos,
                tela: clonar_opcao(&self.politica.tela),
            },
            None => clonar_politica(&self.politica),
        }
    }

    /// Esta chamada vai parar para pedir permissão? Espelha exatamente a condição
    /// de [`Executor::decidir`].
    pub fn precisa_confirmar(&self, reg: &Registro, c: &Chamada) -> (r: bool)
        ensures
            r == precisa(*self, reg.ferramentas@, *c),
    {
        if c.ferramenta >= reg.ferramentas.len() {
            return false;
        }
        let f = &reg.ferramentas[c.ferramenta];
        self.confirmar && f.prim.pede_cerimonia() && self.oficina.is_none()
    }

    /// O que fazer com uma chamada, com as guardas que ela merecer.
    ///
    /// `autorizado` só é verdade quando um humano respondeu "sim" a esta chamada
    /// específica. A permissão pula a pergunta, não as guardas: sandbox, lista
    /// negra, raiz, diário e oficina continuam todos valendo depois dela.
    pub fn decidir(&self, reg: &Registro, c: &Chamada, autorizado: bool) -> (r: Result<
        Decisao,
        String,
    >)
        requires
            self.diario_wf(),
        ensures
            decisao_vale(r, *self, reg.ferramentas@, *c, autorizado),
    {
        if c.ferramenta >= reg.ferramentas.len() {
            let mut v = caracteres("ferramenta ");
            escrever_decimal(c.ferramenta as u64, &mut v);
            let fim = caracteres(" nao existe");
            crate::texto::acrescentar_vec(&mut v, fim.as_slice());
            return Err(string_de(v.as_slice()));
        }
        let f = &reg.ferramentas[c.ferramenta];
        let pol = self.politica_efetiva();
        if !f.prim.pede_cerimonia() || self.oficina.is_some() {
            return Ok(Decisao::Direto(pol));
        }
        if self.confirmar && !autorizado {
            return Ok(Decisao::Perguntar);
        }
        let chave = Diario::chave(f.nome.as_str(), c.args.as_slice());
        match self.diario.consultar(chave.as_str()) {
            Veredito::Repetir(recibo) => {
                let mut t = recibo;
                acrescentar_str(&mut t, "\n  (ja tinha sido feito; nao repeti)");
                Ok(Decisao::Pronto(t))
            },
            Veredito::Incerto => {
                let mut m = copiar("'");
                acrescentar_str(&mut m, f.nome.as_str());
                acrescentar_str(
                    &mut m,
                    "' comecou antes e nao se sabe se terminou. Nao vou repetir as cegas — confira e, se precisar, apague a linha correspondente do diario.",
                );
                Err(m)
            },
            Veredito::FalhouAntes(erro) => Ok(
                Decisao::Registrar { chave, politica: pol, falhou_antes: Some(erro) },
            ),
            Veredito::Executar => Ok(Decisao::Registrar { chave, politica: pol, falhou_antes: None }),
        }
    }

    /// O `iniciado` foi gravado e sincronizado: a execução começou.
    pub fn registrar_inicio(&mut self, chave: &str)
        requires
            old(self).diario_wf(),
        ensures
            final(self).diario_wf(),
            final(self).diario_s() == old(self).diario_s().insert(
                chave@,
                (false, false, Seq::<char>::empty()),
            ),
            final(self).oficina_aberta() == old(self).oficina_aberta(),
            final(self).raiz_da_oficina() == old(self).raiz_da_oficina(),
            final(self).politica_s() == old(self).politica_s(),
            final(self).confirma() == old(self).confirma(),
            final(self).efetiva() == old(self).efetiva(),
    {
        self.diario.iniciar(chave);
    }

    /// A execução terminou: com o texto que ela devolveu, ou com o erro que a
    /// própria ferramenta relatou. Falha em gravar não muda o que aconteceu.
    pub fn registrar_fim(&mut self, chave: &str, saida: &Result<String, String>)
        requires
            old(self).diario_wf(),
        ensures
            final(self).diario_wf(),
            final(self).diario_s() == old(self).diario_s().insert(
                chave@,
                match saida {
                    Ok(t) => (true, false, t@),
                    Err(e) => (false, true, e@),
                },
            ),
            final(self).oficina_aberta() == old(self).oficina_aberta(),
            final(self).raiz_da_oficina() == old(self).raiz_da_oficina(),
            final(self).politica_s() == old(self).politica_s(),
            final(self).confirma() == old(self).confirma(),
            final(self).efetiva() == old(self).efetiva(),
    {
        match saida {
            Ok(t) => self.diario.concluir(chave, t.as_str()),
            Err(e) => self.diario.falhar(chave, e.as_str()),
        }
    }

    pub fn quantas_no_diario(&self) -> (r: usize)
        requires
            self.diario_wf(),
        ensures
            r == self.diario_s().len(),
    {
        self.diario.quantas()
    }
}

// ───────────────────────────── o que as guardas garantem

/// `precisa_confirmar` diz sim exatamente quando `decidir`, sem autorização,
/// manda perguntar.
pub proof fn lei_precisa_confirmar_espelha_decidir(
    r: Result<Decisao, String>,
    ex: Executor,
    fs: Seq<Ferramenta>,
    c: Chamada,
)
    requires
        decisao_vale(r, ex, fs, c, false),
    ensures
        (r matches Ok(Decisao::Perguntar)) <==> precisa(ex, fs, c),
{
}

/// A autorização pula a pergunta, e só ela: com o sim, a chamada nunca volta a
/// perguntar, e tudo o que não era pergunta continua decidido igual.
pub proof fn lei_autorizacao_so_pula_a_pergunta(
    sem: Result<Decisao, String>,
    com: Result<Decisao, String>,
    ex: Executor,
    fs: Seq<Ferramenta>,
    c: Chamada,
)
    requires
        decisao_vale(sem, ex, fs, c, false),
        decisao_vale(com, ex, fs, c, true),
    ensures
        !(com matches Ok(Decisao::Perguntar)),
        !(sem matches Ok(Decisao::Perguntar)) ==> decisao_vale(sem, ex, fs, c, true),
{
}

/// Ferramenta que não pede cerimônia vai direto, com a política efetiva — nunca
/// pergunta e nunca passa pelo diário, por mais vezes que seja chamada.
pub proof fn lei_sem_cerimonia_vai_direto(
    r: Result<Decisao, String>,
    ex: Executor,
    fs: Seq<Ferramenta>,
    c: Chamada,
    autorizado: bool,
)
    requires
        decisao_vale(r, ex, fs, c, autorizado),
        c.ferramenta < fs.len(),
        !pede(fs[c.ferramenta as int]) || ex.oficina_aberta(),
    ensures
        r matches Ok(Decisao::Direto(p)) && p == ex.efetiva(),
{
}

/// Dentro da oficina, a raiz da política é a cópia, em modo real; fora dela, a
/// política é a de sempre.
pub proof fn lei_oficina_redireciona_a_escrita(ex: Executor)
    ensures
        ex.oficina_aberta() ==> ex.efetiva().modo == Modo::Real && (ex.efetiva().raiz matches Some(
            r,
        ) && r@ == ex.raiz_da_oficina()),
        !ex.oficina_aberta() ==> ex.efetiva() == ex.politica_s(),
{
    if ex.oficina_aberta() {
        ex.lema_raiz_da_oficina();
    }
}

/// Depois de registrar o início e a conclusão de uma chamada, pedir a mesma
/// chamada de novo devolve o recibo em vez de executar.
pub proof fn lei_o_que_foi_feito_nao_se_repete(
    antes: Executor,
    depois: Executor,
    fs: Seq<Ferramenta>,
    c: Chamada,
    recibo: Seq<char>,
    autorizado: bool,
    r: Result<Decisao, String>,
)
    requires
        c.ferramenta < fs.len(),
        depois.diario_s() == antes.diario_s().insert(
            chave_de(fs[c.ferramenta as int].nome@, vista_args(c.args@)),
            (false, false, Seq::<char>::empty()),
        ).insert(
            chave_de(fs[c.ferramenta as int].nome@, vista_args(c.args@)),
            (true, false, recibo),
        ),
        depois.oficina_aberta() == antes.oficina_aberta(),
        depois.confirma() == antes.confirma(),
        pede(fs[c.ferramenta as int]),
        !depois.oficina_aberta(),
        autorizado || !depois.confirma(),
        decisao_vale(r, depois, fs, c, autorizado),
    ensures
        r matches Ok(Decisao::Pronto(t)) && t@ == recibo + ja_feito(),
{
}

/// O laço de execução inteiro, duas vezes. A primeira decisão manda registrar;
/// o início vai para o diário (`registrar_inicio`), a execução devolve `s` e a
/// conclusão vai para o diário (`registrar_fim`). Pedida de novo, a mesma chamada
/// responde `s` com o aviso de que não repetiu, sem executar.
pub proof fn lei_executar_duas_vezes(
    ex0: Executor,
    ex1: Executor,
    ex2: Executor,
    fs: Seq<Ferramenta>,
    c: Chamada,
    a1: bool,
    a2: bool,
    r1: Result<Decisao, String>,
    s: Seq<char>,
    r2: Result<Decisao, String>,
)
    requires
        decisao_vale(r1, ex0, fs, c, a1),
        r1 matches Ok(Decisao::Registrar { chave, .. }) && ex1.diario_s() == ex0.diario_s().insert(
            chave@,
            (false, false, Seq::<char>::empty()),
        ) && ex2.diario_s() == ex1.diario_s().insert(chave@, (true, false, s)),
        ex1.oficina_aberta() == ex0.oficina_aberta(),
        ex2.oficina_aberta() == ex1.oficina_aberta(),
        ex1.confirma() == ex0.confirma(),
        ex2.confirma() == ex1.confirma(),
        a2 || !ex2.confirma(),
        decisao_vale(r2, ex2, fs, c, a2),
    ensures
        r2 matches Ok(Decisao::Pronto(t)) && t@ == s + ja_feito(),
{
}

/// Se o fim não chegou ao diário (a execução caiu, ou a linha não foi gravada),
/// a mesma chamada pedida de novo não executa às cegas: fica incerta.
pub proof fn lei_sem_o_fim_fica_incerto(
    ex0: Executor,
    ex1: Executor,
    fs: Seq<Ferramenta>,
    c: Chamada,
    a1: bool,
    a2: bool,
    r1: Result<Decisao, String>,
    r2: Result<Decisao, String>,
)
    requires
        decisao_vale(r1, ex0, fs, c, a1),
        r1 matches Ok(Decisao::Registrar { chave, .. }) && ex1.diario_s() == ex0.diario_s().insert(
            chave@,
            (false, false, Seq::<char>::empty()),
        ),
        ex1.oficina_aberta() == ex0.oficina_aberta(),
        ex1.confirma() == ex0.confirma(),
        a2 || !ex1.confirma(),
        decisao_vale(r2, ex1, fs, c, a2),
    ensures
        r2 matches Err(m) && m@ == incerto(fs[c.ferramenta as int].nome@),
{
}

} // verus!
