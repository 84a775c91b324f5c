//! Primitivas — o que a Teka sabe fazer no mundo.
//!
//! Ferramentas com efeito colateral (escrever, executar) passam pela
//! [`Politica`](crate::seguranca::Politica) e **por padrão não fazem nada** — em
//! sandbox elas descrevem o que fariam.
//!
//! Aqui se decide, para cada primitiva, o que fazer com os argumentos: quais
//! caminhos valem, o que a política recusa, o que a sandbox responde no lugar. O
//! resultado é uma [`Acao`] já resolvida; quem toca no disco, na rede ou no sistema
//! é o programa.
use vstd::prelude::*;
use crate::caminho::{e_absoluto, juntado};
use crate::seguranca::{alvo_de_escrita, caminho_de_leitura, primeiro_proibido, proibidos, Modo, Politica, Recusa};
use crate::caminho::{comeca_em, normalizado};
use crate::texto::{
    aparado, aparar_str, caracteres, caracteres_de, decimal, escrever_decimal, iguais,
    minusculas, para_minusculas, string_de,
};

verus! {

/// Que tipo de marca a ferramenta deixa.
#[derive(Clone, Copy, Debug, PartialEq, Eq, Structural)]
pub enum Efeito {
    /// Só lê. Não deixa marca nenhuma.
    Nenhum,
    /// Muda a máquina: escreve, move, abre programa, roda comando.
    Local,
    /// Alcança fora da máquina: o que você escreveu sai, e o que volta é texto de
    /// terceiro — dado, nunca ordem.
    ParaFora,
    /// Muda o mundo, mas se desfaz com o gesto inverso (um atalho de teclado). Não
    /// passa pelo diário: o segundo "próxima música" não é repetição.
    Reversivel,
}

#[derive(Clone, Copy, PartialEq, Eq, Debug, Structural)]
pub enum Primitiva {
    /// Não entendi / não sei fazer isso. **Não é uma ferramenta de verdade**: é a
    /// ação de não agir.
    Perguntar,
    Hora,
    ListarPasta,
    LerArquivo,
    /// Busca na internet. **A única que alcança fora da máquina.**
    BuscarWeb,
    AbrirPrograma,
    CopiarArquivo,
    MoverArquivo,
    CriarPasta,
    InfoArquivo,
    Processos,
    Rede,
    ApagarArquivo,
    EscreverArquivo,
    ProcurarArquivo,
    Calcular,
    Memoria,
    Disco,
    ExecutarComando,
    /// Procura um trecho dentro dos arquivos.
    Grep,
    /// Abre uma imagem e descreve o que ela contém.
    LerImagem,
    /// Um atalho de teclado da lista fechada.
    Atalho,
}

pub open spec fn efeito_de(p: Primitiva) -> Efeito {
    match p {
        Primitiva::EscreverArquivo | Primitiva::CopiarArquivo | Primitiva::MoverArquivo
        | Primitiva::CriarPasta | Primitiva::AbrirPrograma | Primitiva::ApagarArquivo
        | Primitiva::ExecutarComando => Efeito::Local,
        Primitiva::BuscarWeb => Efeito::ParaFora,
        Primitiva::Atalho => Efeito::Reversivel,
        _ => Efeito::Nenhum,
    }
}

/// O que o programa faz no mundo, com os argumentos já resolvidos.
#[derive(Debug)]
pub enum Acao {
    /// Responde sem tocar em nada: a pergunta de volta, ou o que a sandbox faria.
    Responder(String),
    Hora,
    /// Lista a pasta.
    ListarPasta(String),
    /// Lê no máximo `max` bytes do arquivo.
    LerArquivo { caminho: String, max: usize },
    EscreverArquivo { alvo: String, texto: String },
    /// Procura até a profundidade 8 em `raiz` nomes que contenham `alvo` (o nome
    /// pedido em minúsculas).
    ProcurarArquivo { raiz: String, nome: String, alvo: String },
    Calcular(String),
    Memoria,
    BuscarWeb(String),
    AbrirPrograma(String),
    CopiarArquivo { de: String, para: String },
    MoverArquivo { de: String, para: String },
    CriarPasta(String),
    InfoArquivo(String),
    Processos,
    Rede,
    ApagarArquivo(String),
    Disco(String),
    ExecutarComando(String),
    Grep { padrao: String, raiz: String },
    LerImagem(String),
    Atalho { nome: String, alvo: String },
}

/// [`Acao`] vista como texto.
pub enum AcaoS {
    Responder(Seq<char>),
    Hora,
    ListarPasta(Seq<char>),
    LerArquivo(Seq<char>, usize),
    EscreverArquivo(Seq<char>, Seq<char>),
    ProcurarArquivo(Seq<char>, Seq<char>, Seq<char>),
    Calcular(Seq<char>),
    Memoria,
    BuscarWeb(Seq<char>),
    AbrirPrograma(Seq<char>),
    CopiarArquivo(Seq<char>, Seq<char>),
    MoverArquivo(Seq<char>, Seq<char>),
    CriarPasta(Seq<char>),
    InfoArquivo(Seq<char>),
    Processos,
    Rede,
    ApagarArquivo(Seq<char>),
    Disco(Seq<char>),
    ExecutarComando(Seq<char>),
    Grep(Seq<char>, Seq<char>),
    LerImagem(Seq<char>),
    Atalho(Seq<char>, Seq<char>),
}

impl View for Acao {
    type V = AcaoS;

    open spec fn view(&self) -> AcaoS {
        match self {
            Acao::Responder(s) => AcaoS::Responder(s@),
            Acao::Hora => AcaoS::Hora,
            Acao::ListarPasta(c) => AcaoS::ListarPasta(c@),
            Acao::LerArquivo { caminho, max } => AcaoS::LerArquivo(caminho@, *max),
            Acao::EscreverArquivo { alvo, texto } => AcaoS::EscreverArquivo(alvo@, texto@),
            Acao::ProcurarArquivo { raiz, nome, alvo } => AcaoS::ProcurarArquivo(
                raiz@,
                nome@,
                alvo@,
            ),
            Acao::Calcular(e) => AcaoS::Calcular(e@),
            Acao::Memoria => AcaoS::Memoria,
            Acao::BuscarWeb(c) => AcaoS::BuscarWeb(c@),
            Acao::AbrirPrograma(n) => AcaoS::AbrirPrograma(n@),
            Acao::CopiarArquivo { de, para } => AcaoS::CopiarArquivo(de@, para@),
            Acao::MoverArquivo { de, para } => AcaoS::MoverArquivo(de@, para@),
            Acao::CriarPasta(c) => AcaoS::CriarPasta(c@),
            Acao::InfoArquivo(c) => AcaoS::InfoArquivo(c@),
            Acao::Processos => AcaoS::Processos,
            Acao::Rede => AcaoS::Rede,
            Acao::ApagarArquivo(c) => AcaoS::ApagarArquivo(c@),
            Acao::Disco(c) => AcaoS::Disco(c@),
            Acao::ExecutarComando(c) => AcaoS::ExecutarComando(c@),
            Acao::Grep { padrao, raiz } => AcaoS::Grep(padrao@, raiz@),
            Acao::LerImagem(c) => AcaoS::LerImagem(c@),
            Acao::Atalho { nome, alvo } => AcaoS::Atalho(nome@, alvo@),
        }
    }
}

/// O valor do primeiro argumento chamado `nome`, ou vazio.
pub open spec fn arg_de(args: Seq<(String, String)>, nome: Seq<char>) -> Seq<char>
    decreases args.len(),
{
    if args.len() == 0 {
        seq![]
    } else if args[0].0@ == nome {
        args[0].1@
    } else {
        arg_de(args.drop_first(), nome)
    }
}

/// Onde uma leitura de `c` cai: relativo vai para dentro da raiz.
pub open spec fn leitura(pol: Politica, c: Seq<char>) -> Seq<char> {
    match pol.raiz {
        Some(raiz) => if !e_absoluto(c) && c.len() > 0 {
            juntado(raiz@, c)
        } else {
            c
        },
        None => c,
    }
}

pub open spec fn fora_da_raiz(c: Seq<char>) -> Seq<char> {
    "recusado: "@ + c + " está fora da raiz permitida"@
}

/// Onde uma escrita em `c` cai, ou a recusa.
pub open spec fn escrita(pol: Politica, c: Seq<char>) -> Result<Seq<char>, Seq<char>> {
    match pol.raiz {
        None => Err(fora_da_raiz(c)),
        Some(raiz) => {
            let alvo = alvo_de_escrita(raiz@, c);
            if comeca_em(alvo, normalizado(raiz@)) {
                Ok(alvo)
            } else {
                Err(fora_da_raiz(alvo))
            }
        },
    }
}

/// A recusa de um comando que contém padrão destrutivo: o primeiro da lista.
pub open spec fn recusa_de_comando(cmd: Seq<char>) -> Option<Seq<char>> {
    let b = minusculas(cmd);
    if exists|i: int| primeiro_proibido(b, i) {
        let i = choose|i: int| primeiro_proibido(b, i);
        Some("recusado: comando contém padrão destrutivo (\""@ + proibidos()[i] + "\")"@)
    } else {
        None
    }
}

pub open spec fn em_branco(s: Seq<char>) -> bool {
    aparado(s).len() == 0
}

pub open spec fn sandbox(pol: Politica) -> bool {
    pol.modo == Modo::Sandbox
}

/// O tamanho em bytes (UTF-8).
pub open spec fn bytes(s: Seq<char>) -> nat {
    vstd::utf8::encode_utf8(s).len()
}

pub open spec fn resposta_pergunta() -> Seq<char> {
    "nao entendi o que voce quer que eu faca. pode dizer de outro jeito?"@
}

/// O que uma primitiva faz com estes argumentos e esta política.
pub open spec fn plano(p: Primitiva, args: Seq<(String, String)>, pol: Politica) -> Result<
    AcaoS,
    Seq<char>,
> {
    let caminho = arg_de(args, "caminho"@);
    match p {
        Primitiva::Perguntar => Ok(AcaoS::Responder(resposta_pergunta())),
        Primitiva::Hora => Ok(AcaoS::Hora),
        Primitiva::ListarPasta => Ok(
            AcaoS::ListarPasta(
                if caminho.len() == 0 {
                    match pol.raiz {
                        Some(r) => r@,
                        None => seq!['.'],
                    }
                } else {
                    leitura(pol, caminho)
                },
            ),
        ),
        Primitiva::LerArquivo => Ok(AcaoS::LerArquivo(leitura(pol, caminho), pol.max_leitura)),
        Primitiva::EscreverArquivo => {
            let texto = arg_de(args, "texto"@);
            match escrita(pol, caminho) {
                Err(e) => Err(e),
                Ok(alvo) => if sandbox(pol) {
                    Ok(
                        AcaoS::Responder(
                            "[sandbox] escreveria "@ + decimal(bytes(texto) as u64) + " bytes em "@
                                + alvo,
                        ),
                    )
                } else {
                    Ok(AcaoS::EscreverArquivo(alvo, texto))
                },
            }
        },
        Primitiva::ProcurarArquivo => {
            let nome = arg_de(args, "nome"@);
            let raiz = arg_de(args, "raiz"@);
            if nome.len() == 0 {
                Err("procurar_arquivo precisa de um nome"@)
            } else {
                Ok(
                    AcaoS::ProcurarArquivo(
                        if raiz.len() == 0 {
                            match pol.raiz {
                                Some(r) => r@,
                                None => seq!['.'],
                            }
                        } else {
                            leitura(pol, raiz)
                        },
                        nome,
                        minusculas(nome),
                    ),
                )
            }
        },
        Primitiva::Calcular => Ok(AcaoS::Calcular(arg_de(args, "expressao"@))),
        Primitiva::Memoria => Ok(AcaoS::Memoria),
        Primitiva::BuscarWeb => {
            let consulta = arg_de(args, "consulta"@);
            if em_branco(consulta) {
                Err("buscar_web precisa de uma consulta"@)
            } else {
                Ok(AcaoS::BuscarWeb(consulta))
            }
        },
        Primitiva::AbrirPrograma => {
            let nome = arg_de(args, "programa"@);
            if em_branco(nome) {
                Err("abrir_programa precisa de um nome"@)
            } else {
                match recusa_de_comando(nome) {
                    Some(e) => Err(e),
                    None => if sandbox(pol) {
                        Ok(AcaoS::Responder("[sandbox] abriria "@ + nome))
                    } else {
                        Ok(AcaoS::AbrirPrograma(nome))
                    },
                }
            }
        },
        Primitiva::CopiarArquivo => {
            let de = leitura(pol, arg_de(args, "origem"@));
            match escrita(pol, arg_de(args, "destino"@)) {
                Err(e) => Err(e),
                Ok(para) => if sandbox(pol) {
                    Ok(AcaoS::Responder("[sandbox] copiaria "@ + de + " para "@ + para))
                } else {
                    Ok(AcaoS::CopiarArquivo(de, para))
                },
            }
        },
        Primitiva::MoverArquivo => match escrita(pol, arg_de(args, "origem"@)) {
            Err(e) => Err(e),
            Ok(de) => match escrita(pol, arg_de(args, "destino"@)) {
                Err(e) => Err(e),
                Ok(para) => if sandbox(pol) {
                    Ok(AcaoS::Responder("[sandbox] moveria "@ + de + " para "@ + para))
                } else {
                    Ok(AcaoS::MoverArquivo(de, para))
                },
            },
        },
        Primitiva::CriarPasta => match escrita(pol, caminho) {
            Err(e) => Err(e),
            Ok(alvo) => if sandbox(pol) {
                Ok(AcaoS::Responder("[sandbox] criaria a pasta "@ + alvo))
            } else {
                Ok(AcaoS::CriarPasta(alvo))
            },
        },
        Primitiva::InfoArquivo => Ok(AcaoS::InfoArquivo(leitura(pol, caminho))),
        Primitiva::Processos => Ok(AcaoS::Processos),
        Primitiva::Rede => Ok(AcaoS::Rede),
        Primitiva::ApagarArquivo => match escrita(pol, caminho) {
            Err(e) => Err(e),
            Ok(alvo) => if sandbox(pol) {
                Ok(AcaoS::Responder("[sandbox] apagaria "@ + alvo))
            } else {
                Ok(AcaoS::ApagarArquivo(alvo))
            },
        },
        Primitiva::Disco => Ok(
            AcaoS::Disco(
                if caminho.len() == 0 {
                    "C:\\"@
                } else {
                    caminho
                },
            ),
        ),
        Primitiva::ExecutarComando => {
            let cmd = arg_de(args, "comando"@);
            if em_branco(cmd) {
                Err("comando vazio"@)
            } else {
                match recusa_de_comando(cmd) {
                    Some(e) => Err(e),
                    None => if sandbox(pol) {
                        Ok(AcaoS::Responder("[sandbox] executaria: "@ + cmd))
                    } else {
                        Ok(AcaoS::ExecutarComando(cmd))
                    },
                }
            }
        },
        Primitiva::Grep => Ok(AcaoS::Grep(arg_de(args, "padrao"@), arg_de(args, "raiz"@))),
        Primitiva::LerImagem => Ok(AcaoS::LerImagem(caminho)),
        Primitiva::Atalho => Ok(AcaoS::Atalho(arg_de(args, "nome"@), arg_de(args, "alvo"@))),
    }
}

pub open spec fn plano_vale(r: Result<Acao, String>, s: Result<AcaoS, Seq<char>>) -> bool {
    match r {
        Ok(a) => s == Ok::<AcaoS, Seq<char>>(a@),
        Err(e) => s == Err::<AcaoS, Seq<char>>(e@),
    }
}

/// O valor do primeiro argumento chamado `nome`, ou vazio.
pub fn arg(args: &[(String, String)], nome: &str) -> (r: String)
    ensures
        r@ == arg_de(args@, nome@),
{
    let n = caracteres(nome);
    let mut i: usize = 0;
    assert(args@.subrange(0, args@.len() as int) =~= args@);
    while i < args.len()
        invariant
            i <= args.len(),
            n@ == nome@,
            arg_de(args@, nome@) == arg_de(args@.subrange(i as int, args@.len() as int), nome@),
        decreases args.len() - i,
    {
        let k = caracteres_de(&args[i].0);
        assert(args@.subrange(i as int, args@.len() as int).drop_first() =~= args@.subrange(
            i + 1,
            args@.len() as int,
        ));
        if iguais(k.as_slice(), n.as_slice()) {
            return args[i].1.clone();
        }
        i = i + 1;
    }
    String::new()
}

proof fn lema_primeiro_unico(b: Seq<char>, i: int, j: int)
    requires
        primeiro_proibido(b, i),
        primeiro_proibido(b, j),
    ensures
        i == j,
{
    if i < j {
        assert(!crate::texto::contem(b, proibidos()[i]));
    }
    if j < i {
        assert(!crate::texto::contem(b, proibidos()[j]));
    }
}

/// A política checa o comando; a recusa vira a mensagem dela.
fn comando_ok(pol: &Politica, cmd: &str) -> (r: Result<(), String>)
    ensures
        match recusa_de_comando(cmd@) {
            None => r is Ok,
            Some(m) => r matches Err(e) && e@ == m,
        },
{
    match pol.checar_comando(cmd) {
        Ok(()) => {
            assert(!exists|i: int| primeiro_proibido(minusculas(cmd@), i));
            Ok(())
        },
        Err(e) => {
            proof {
                let b = minusculas(cmd@);
                let i0 = choose|i: int|
                    primeiro_proibido(b, i) && (e matches Recusa::Destrutivo(p) && p@
                        == proibidos()[i]);
                let j = choose|i: int| primeiro_proibido(b, i);
                lema_primeiro_unico(b, i0, j);
            }
            Err(e.mensagem())
        },
    }
}

fn escrita_exec(pol: &Politica, c: &str) -> (r: Result<String, String>)
    ensures
        match escrita(*pol, c@) {
            Ok(a) => r matches Ok(x) && x@ == a,
            Err(m) => r matches Err(e) && e@ == m,
        },
{
    match pol.checar_escrita(c) {
        Ok(a) => Ok(a),
        Err(e) => Err(e.mensagem()),
    }
}

fn vazio(s: &String) -> (r: bool)
    ensures
        r == (s@.len() == 0),
{
    caracteres_de(s).len() == 0
}

fn em_branco_exec(s: &str) -> (r: bool)
    ensures
        r == em_branco(s@),
{
    aparar_str(s).len() == 0
}

fn juntar2(a: &str, b: &str) -> (r: String)
    ensures
        r@ == a@ + b@,
{
    let mut s = crate::texto::copiar(a);
    crate::texto::acrescentar_str(&mut s, b);
    s
}

fn juntar4(a: &str, b: &str, c: &str, d: &str) -> (r: String)
    ensures
        r@ == a@ + b@ + c@ + d@,
{
    let mut s = crate::texto::copiar(a);
    crate::texto::acrescentar_str(&mut s, b);
    crate::texto::acrescentar_str(&mut s, c);
    crate::texto::acrescentar_str(&mut s, d);
    s
}

fn raiz_ou_ponto(pol: &Politica) -> (r: String)
    ensures
        r@ == match pol.raiz {
            Some(x) => x@,
            None => seq!['.'],
        },
{
    pol.raiz_ou_atual()
}

impl Primitiva {
    /// Que tipo de marca a ferramenta deixa.
    ///
    /// Separa o que precisa de diário e de oficina do que não precisa. Ler duas
    /// vezes não custa nada; escrever duas vezes custa. `ExecutarComando` conta como
    /// efeito local mesmo podendo ser um `dir` inofensivo: não há como saber sem
    /// interpretar o comando.
    pub fn efeito(&self) -> (r: Efeito)
        ensures
            r == efeito_de(*self),
    {
        match self {
            Primitiva::EscreverArquivo | Primitiva::CopiarArquivo | Primitiva::MoverArquivo
            | Primitiva::CriarPasta | Primitiva::AbrirPrograma | Primitiva::ApagarArquivo
            | Primitiva::ExecutarComando => Efeito::Local,
            Primitiva::BuscarWeb => Efeito::ParaFora,
            Primitiva::Atalho => Efeito::Reversivel,
            _ => Efeito::Nenhum,
        }
    }

    /// Mexe no mundo de algum jeito?
    pub fn efeito_colateral(&self) -> (r: bool)
        ensures
            r == (efeito_de(*self) != Efeito::Nenhum),
    {
        self.efeito() != Efeito::Nenhum
    }

    /// Precisa da cerimônia toda — confirmação e diário? Só o que deixa marca sem
    /// volta: um efeito reversível muda o mundo mas não passa pelo diário.
    pub fn pede_cerimonia(&self) -> (r: bool)
        ensures
            r == (efeito_de(*self) == Efeito::Local || efeito_de(*self) == Efeito::ParaFora),
    {
        let e = self.efeito();
        e == Efeito::Local || e == Efeito::ParaFora
    }

    /// O que esta primitiva faz com estes argumentos, sob esta política.
    ///
    /// Recusa o que a política recusa (escrita fora da raiz, comando destrutivo,
    /// argumento vazio onde ele é preciso); em sandbox, devolve a descrição do que
    /// faria em vez de fazer.
    pub fn executar(&self, args: &[(String, String)], pol: &Politica) -> (r: Result<Acao, String>)
        ensures
            plano_vale(r, plano(*self, args@, *pol)),
    {
        let caminho = arg(args, "caminho");
        match self {
            Primitiva::Perguntar => Ok(
                Acao::Responder(
                    crate::texto::copiar(
                        "nao entendi o que voce quer que eu faca. pode dizer de outro jeito?",
                    ),
                ),
            ),
            Primitiva::Hora => Ok(Acao::Hora),
            Primitiva::ListarPasta => {
                if vazio(&caminho) {
                    Ok(Acao::ListarPasta(raiz_ou_ponto(pol)))
                } else {
                    Ok(Acao::ListarPasta(pol.resolver_leitura(caminho.as_str())))
                }
            },
            Primitiva::LerArquivo => Ok(
                Acao::LerArquivo {
                    caminho: pol.resolver_leitura(caminho.as_str()),
                    max: pol.max_leitura,
                },
            ),
            Primitiva::EscreverArquivo => {
                let texto = arg(args, "texto");
                let alvo = escrita_exec(pol, caminho.as_str())?;
                if pol.modo == Modo::Sandbox {
                    let mut v = caracteres("[sandbox] escreveria ");
                    let nb = texto.as_str().as_bytes().len();
                    escrever_decimal(nb as u64, &mut v);
                    let resto = caracteres(" bytes em ");
                    crate::texto::acrescentar_vec(&mut v, resto.as_slice());
                    let a = caracteres_de(&alvo);
                    crate::texto::acrescentar_vec(&mut v, a.as_slice());
                    assert(v@ =~= "[sandbox] escreveria "@ + decimal(bytes(texto@) as u64)
                        + " bytes em "@ + alvo@);
                    Ok(Acao::Responder(string_de(v.as_slice())))
                } else {
                    Ok(Acao::EscreverArquivo { alvo, texto })
                }
            },
            Primitiva::ProcurarArquivo => {
                let nome = arg(args, "nome");
                let raiz = arg(args, "raiz");
                if vazio(&nome) {
                    return Err(crate::texto::copiar("procurar_arquivo precisa de um nome"));
                }
                let r = if vazio(&raiz) {
                    raiz_ou_ponto(pol)
                } else {
                    pol.resolver_leitura(raiz.as_str())
                };
                let alvo = para_minusculas(nome.as_str());
                Ok(Acao::ProcurarArquivo { raiz: r, nome, alvo })
            },
            Primitiva::Calcular => Ok(Acao::Calcular(arg(args, "expressao"))),
            Primitiva::Memoria => Ok(Acao::Memoria),
            Primitiva::BuscarWeb => {
                let consulta = arg(args, "consulta");
                if em_branco_exec(consulta.as_str()) {
                    Err(crate::texto::copiar("buscar_web precisa de uma consulta"))
                } else {
                    Ok(Acao::BuscarWeb(consulta))
                }
            },
            Primitiva::AbrirPrograma => {
                let nome = arg(args, "programa");
                if em_branco_exec(nome.as_str()) {
                    return Err(crate::texto::copiar("abrir_programa precisa de um nome"));
                }
                comando_ok(pol, nome.as_str())?;
                if pol.modo == Modo::Sandbox {
                    Ok(Acao::Responder(juntar2("[sandbox] abriria ", nome.as_str())))
                } else {
                    Ok(Acao::AbrirPrograma(nome))
                }
            },
            Primitiva::CopiarArquivo => {
                let origem = arg(args, "origem");
                let destino = arg(args, "destino");
                let de = pol.resolver_leitura(origem.as_str());
                let para = escrita_exec(pol, destino.as_str())?;
                if pol.modo == Modo::Sandbox {
                    Ok(
                        Acao::Responder(
                            juntar4("[sandbox] copiaria ", de.as_str(), " para ", para.as_str()),
                        ),
                    )
                } else {
                    Ok(Acao::CopiarArquivo { de, para })
                }
            },
            Primitiva::MoverArquivo => {
                let origem = arg(args, "origem");
                let destino = arg(args, "destino");
                let de = escrita_exec(pol, origem.as_str())?;
                let para = escrita_exec(pol, destino.as_str())?;
                if pol.modo == Modo::Sandbox {
                    Ok(
                        Acao::Responder(
                            juntar4("[sandbox] moveria ", de.as_str(), " para ", para.as_str()),
                        ),
                    )
                } else {
                    Ok(Acao::MoverArquivo { de, para })
                }
            },
            Primitiva::CriarPasta => {
                let alvo = escrita_exec(pol, caminho.as_str())?;
                if pol.modo == Modo::Sandbox {
                    Ok(Acao::Responder(juntar2("[sandbox] criaria a pasta ", alvo.as_str())))
                } else {
                    Ok(Acao::CriarPasta(alvo))
                }
            },
            Primitiva::InfoArquivo => Ok(Acao::InfoArquivo(pol.resolver_leitura(caminho.as_str()))),
            Primitiva::Processos => Ok(Acao::Processos),
            Primitiva::Rede => Ok(Acao::Rede),
            Primitiva::ApagarArquivo => {
                let alvo = escrita_exec(pol, caminho.as_str())?;
                if pol.modo == Modo::Sandbox {
                    Ok(Acao::Responder(juntar2("[sandbox] apagaria ", alvo.as_str())))
                } else {
                    Ok(Acao::ApagarArquivo(alvo))
                }
            },
            Primitiva::Disco => {
                if vazio(&caminho) {
                    Ok(Acao::Disco(crate::texto::copiar("C:\\")))
                } else {
                    Ok(Acao::Disco(caminho))
                }
            },
            Primitiva::ExecutarComando => {
                let cmd = arg(args, "comando");
                if em_branco_exec(cmd.as_str()) {
                    return Err(crate::texto::copiar("comando vazio"));
                }
                comando_ok(pol, cmd.as_str())?;
                if pol.modo == Modo::Sandbox {
                    Ok(Acao::Responder(juntar2("[sandbox] executaria: ", cmd.as_str())))
                } else {
                    Ok(Acao::ExecutarComando(cmd))
                }
            },
            Primitiva::Grep => Ok(Acao::Grep { padrao: arg(args, "padrao"), raiz: arg(args, "raiz") }),
            Primitiva::LerImagem => Ok(Acao::LerImagem(caminho)),
            Primitiva::Atalho => Ok(Acao::Atalho { nome: arg(args, "nome"), alvo: arg(args, "alvo") }),
        }
    }
}

// ───────────────────────────── UTF-16 para a API do Windows

/// As unidades UTF-16 de um caractere.
pub open spec fn utf16_de(c: char) -> Seq<u16> {
    let v = c as u32;
    if v < 0x10000 {
        seq![v as u16]
    } else {
        let w = (v - 0x10000) as u32;
        seq![(0xD800 + w / 1024) as u16, (0xDC00 + w % 1024) as u16]
    }
}

pub open spec fn utf16(s: Seq<char>) -> Seq<u16>
    decreases s.len(),
{
    if s.len() == 0 {
        seq![]
    } else {
        utf16(s.drop_last()) + utf16_de(s.last())
    }
}

/// `s` em UTF-16 terminado por zero, como a API do Windows pede.
pub fn wide(s: &str) -> (r: Vec<u16>)
    ensures
        r@ == utf16(s@).push(0u16),
{
    let cs = caracteres(s);
    let mut r: Vec<u16> = Vec::new();
    let mut i: usize = 0;
    while i < cs.len()
        invariant
            i <= cs.len(),
            cs@ == s@,
            r@ == utf16(s@.take(i as int)),
        decreases cs.len() - i,
    {
        let c = cs[i];
        let v = c as u32;
        proof {
            assert(s@.take(i + 1).drop_last() =~= s@.take(i as int));
            assert(s@.take(i + 1).last() == c);
        }
        if v < 0x10000 {
            r.push(v as u16);
        } else {
            proof {
                vstd::utf8::char_is_scalar(c);
            }
            assert(v <= 0x10FFFF);
            let w: u32 = v - 0x10000;
            assert(w / 1024 < 1024 && w % 1024 < 1024) by (nonlinear_arith)
                requires
                    w < 0x100000,
            ;
            r.push((0xD800 + w / 1024) as u16);
            r.push((0xDC00 + w % 1024) as u16);
        }
        i = i + 1;
        assert(r@ =~= utf16(s@.take(i as int)));
    }
    r.push(0);
    assert(s@.take(cs.len() as int) =~= s@);
    r
}

// ───────────────────────────── a listagem de uma pasta

/// Quantos itens a listagem de uma pasta mostra, no máximo.
pub const MAX_ITENS_LISTADOS: usize = 200;

/// Um item listado, por valor: é pasta, o nome, o tamanho.
pub open spec fn item_s(i: (bool, String, u64)) -> (bool, Seq<char>, u64) {
    (i.0, i.1@, i.2)
}

pub open spec fn itens_s(v: Seq<(bool, String, u64)>) -> Seq<(bool, Seq<char>, u64)> {
    v.map_values(|i: (bool, String, u64)| item_s(i))
}

/// `a` vem antes de `b`, ou é `b`, na ordem de `String`: caractere a caractere,
/// quem acaba primeiro antes.
pub open spec fn nome_ate(a: Seq<char>, b: Seq<char>) -> bool
    decreases a.len(),
{
    if a.len() == 0 {
        true
    } else if b.len() == 0 {
        false
    } else if a[0] != b[0] {
        a[0] < b[0]
    } else {
        nome_ate(a.drop_first(), b.drop_first())
    }
}

/// A ordem da listagem: pastas primeiro, e entre iguais pelo nome.
pub open spec fn item_ate(a: (bool, Seq<char>, u64), b: (bool, Seq<char>, u64)) -> bool {
    (a.0 && !b.0) || (a.0 == b.0 && nome_ate(a.1, b.1))
}

pub open spec fn itens_em_ordem(v: Seq<(bool, Seq<char>, u64)>) -> bool {
    forall|i: int, j: int| 0 <= i < j < v.len() ==> item_ate(#[trigger] v[i], #[trigger] v[j])
}

proof fn lema_nome_total(a: Seq<char>, b: Seq<char>)
    ensures
        nome_ate(a, b) || nome_ate(b, a),
    decreases a.len(),
{
    if a.len() > 0 && b.len() > 0 && a[0] == b[0] {
        lema_nome_total(a.drop_first(), b.drop_first());
    }
}

proof fn lema_nome_transitivo(a: Seq<char>, b: Seq<char>, c: Seq<char>)
    requires
        nome_ate(a, b),
        nome_ate(b, c),
    ensures
        nome_ate(a, c),
    decreases a.len(),
{
    if a.len() > 0 && b.len() > 0 && c.len() > 0 && a[0] == b[0] && b[0] == c[0] {
        lema_nome_transitivo(a.drop_first(), b.drop_first(), c.drop_first());
    }
}

proof fn lema_item_total(a: (bool, Seq<char>, u64), b: (bool, Seq<char>, u64))
    ensures
        item_ate(a, b) || item_ate(b, a),
{
    lema_nome_total(a.1, b.1);
}

proof fn lema_item_transitivo(a: (bool, Seq<char>, u64), b: (bool, Seq<char>, u64), c: (bool, Seq<char>, u64))
    requires
        item_ate(a, b),
        item_ate(b, c),
    ensures
        item_ate(a, c),
{
    if a.0 == b.0 && b.0 == c.0 {
        lema_nome_transitivo(a.1, b.1, c.1);
    }
}

fn nome_ate_exec(a: &[char], b: &[char]) -> (r: bool)
    ensures
        r == nome_ate(a@, b@),
{
    let mut i: usize = 0;
    assert(a@.subrange(0, a@.len() as int) =~= a@);
    assert(b@.subrange(0, b@.len() as int) =~= b@);
    while i < a.len() && i < b.len() && a[i] == b[i]
        invariant
            i <= a.len(),
            i <= b.len(),
            nome_ate(a@, b@) == nome_ate(a@.subrange(i as int, a@.len() as int), b@.subrange(i as int, b@.len() as int)),
        decreases a.len() - i,
    {
        assert(a@.subrange(i as int, a@.len() as int).drop_first() =~= a@.subrange(i + 1, a@.len() as int));
        assert(b@.subrange(i as int, b@.len() as int).drop_first() =~= b@.subrange(i + 1, b@.len() as int));
        i = i + 1;
    }
    let ghost sa = a@.subrange(i as int, a@.len() as int);
    let ghost sb = b@.subrange(i as int, b@.len() as int);
    if i == a.len() {
        assert(sa.len() == 0);
        true
    } else if i == b.len() {
        assert(sb.len() == 0);
        false
    } else {
        assert(sa[0] == a@[i as int] && sb[0] == b@[i as int]);
        a[i] < b[i]
    }
}

fn item_ate_exec(a: &(bool, String, u64), b: &(bool, String, u64)) -> (r: bool)
    ensures
        r == item_ate(item_s(*a), item_s(*b)),
{
    if a.0 && !b.0 {
        true
    } else if a.0 == b.0 {
        let x = caracteres_de(&a.1);
        let y = caracteres_de(&b.1);
        nome_ate_exec(x.as_slice(), y.as_slice())
    } else {
        false
    }
}

/// Os itens de uma pasta em ordem (pastas primeiro, depois pelo nome), os
/// mesmos que vieram, e só os primeiros [`MAX_ITENS_LISTADOS`].
pub fn ordenar_listagem(itens: Vec<(bool, String, u64)>) -> (r: Vec<(bool, String, u64)>)
    ensures
        r@.len() == if itens@.len() < MAX_ITENS_LISTADOS {
            itens@.len()
        } else {
            MAX_ITENS_LISTADOS as nat
        },
        exists|s: Seq<(bool, Seq<char>, u64)>|
            #![trigger s.to_multiset()]
            s.to_multiset() == itens_s(itens@).to_multiset() && itens_em_ordem(s) && itens_s(r@)
                == s.take(r@.len() as int),
{
    broadcast use vstd::seq_lib::group_to_multiset_ensures, vstd::multiset::group_multiset_axioms;

    let ghost orig = itens_s(itens@);
    let mut v = itens;
    let mut r: Vec<(bool, String, u64)> = Vec::new();
    assert(itens_s(r@) =~= Seq::<(bool, Seq<char>, u64)>::empty());
    assert(itens_s(r@).to_multiset().add(itens_s(v@).to_multiset()) =~= orig.to_multiset());
    while v.len() > 0
        invariant
            itens_s(r@).to_multiset().add(itens_s(v@).to_multiset()) == orig.to_multiset(),
            itens_em_ordem(itens_s(r@)),
            r@.len() + v@.len() == orig.len(),
        decreases v.len(),
    {
        let ghost vr = itens_s(r@);
        let ghost vv = itens_s(v@);
        let x = v.pop().unwrap();
        let ghost xs = item_s(x);
        assert(vv =~= itens_s(v@).push(xs));
        let mut p: usize = 0;
        while p < r.len() && item_ate_exec(&r[p], &x)
            invariant
                p <= r.len(),
                vr == itens_s(r@),
                xs == item_s(x),
                forall|i: int| 0 <= i < p ==> item_ate(#[trigger] vr[i], xs),
            decreases r.len() - p,
        {
            assert(vr[p as int] == item_s(r@[p as int]));
            p = p + 1;
        }
        assert(p < r.len() ==> vr[p as int] == item_s(r@[p as int]));
        r.insert(p, x);
        let ghost nr = itens_s(r@);
        assert(nr =~= vr.insert(p as int, xs));
        proof {
            assert(nr.remove(p as int) =~= vr);
            assert(nr[p as int] == xs);
            nr.to_multiset_ensures();
            assert(nr.contains(xs));
            assert(vr.to_multiset() =~= nr.to_multiset().remove(xs));
            assert(nr.to_multiset() =~= vr.to_multiset().insert(xs));
            itens_s(v@).to_multiset_ensures();
            assert(vv.to_multiset() =~= itens_s(v@).to_multiset().insert(xs));
            assert(nr.to_multiset().add(itens_s(v@).to_multiset()) =~= vr.to_multiset().add(vv.to_multiset()));
            assert forall|i: int, j: int| 0 <= i < j < nr.len() implies item_ate(#[trigger] nr[i], #[trigger] nr[j]) by {
                let pi = p as int;
                if j < pi {
                    assert(nr[i] == vr[i] && nr[j] == vr[j]);
                } else if j == pi {
                    assert(nr[i] == vr[i]);
                } else if i > pi {
                    assert(nr[i] == vr[i - 1] && nr[j] == vr[j - 1]);
                } else if i == pi {
                    assert(nr[j] == vr[j - 1]);
                    lema_item_total(vr[pi], xs);
                    if j - 1 > pi {
                        assert(item_ate(vr[pi], vr[j - 1]));
                        lema_item_transitivo(xs, vr[pi], vr[j - 1]);
                    }
                } else {
                    assert(nr[i] == vr[i] && nr[j] == vr[j - 1]);
                }
            }
        }
    }
    let ghost s = itens_s(r@);
    assert(itens_s(v@) =~= Seq::<(bool, Seq<char>, u64)>::empty());
    assert(s.to_multiset().add(Seq::<(bool, Seq<char>, u64)>::empty().to_multiset()) =~= s.to_multiset());
    r.truncate(MAX_ITENS_LISTADOS);
    assert(itens_s(r@) =~= s.take(r@.len() as int));
    r
}

/// `procurar_arquivo` procura a partir de onde uma leitura da `raiz` pedida cai
/// sob a política (o que `Politica::resolver_leitura` dá); sem `raiz`, a partir da
/// raiz da política, ou de `.` sem ela; sem `nome`, recusa. O nome vai como veio.
pub proof fn lei_procurar_parte_da_raiz_pedida(args: Seq<(String, String)>, pol: Politica)
    ensures
        ({
            let nome = arg_de(args, "nome"@);
            let raiz = arg_de(args, "raiz"@);
            &&& nome.len() == 0 ==> plano(Primitiva::ProcurarArquivo, args, pol) is Err
            &&& nome.len() > 0 && raiz.len() > 0 ==> (plano(Primitiva::ProcurarArquivo, args, pol) matches Ok(
                AcaoS::ProcurarArquivo(r, n, _),
            ) && r == caminho_de_leitura(pol, raiz) && n == nome)
            &&& nome.len() > 0 && raiz.len() == 0 ==> (plano(Primitiva::ProcurarArquivo, args, pol) matches Ok(
                AcaoS::ProcurarArquivo(r, n, _),
            ) && r == (match pol.raiz {
                Some(x) => x@,
                None => seq!['.'],
            }) && n == nome)
        }),
{
}

/// Ler e listar agem onde uma leitura do `caminho` pedido cai sob a política (o
/// que `Politica::resolver_leitura` dá): ler com o teto de leitura da política;
/// listar sem caminho, na raiz da política, ou em `.` sem ela.
pub proof fn lei_ler_e_listar_onde_a_politica_resolve(args: Seq<(String, String)>, pol: Politica)
    ensures
        ({
            let c = arg_de(args, "caminho"@);
            &&& plano(Primitiva::LerArquivo, args, pol) == Ok::<AcaoS, Seq<char>>(
                AcaoS::LerArquivo(caminho_de_leitura(pol, c), pol.max_leitura),
            )
            &&& c.len() > 0 ==> plano(Primitiva::ListarPasta, args, pol) == Ok::<AcaoS, Seq<char>>(
                AcaoS::ListarPasta(caminho_de_leitura(pol, c)),
            )
            &&& c.len() == 0 ==> plano(Primitiva::ListarPasta, args, pol) == Ok::<AcaoS, Seq<char>>(
                AcaoS::ListarPasta(
                    match pol.raiz {
                        Some(x) => x@,
                        None => seq!['.'],
                    },
                ),
            )
        }),
{
}

} // verus!
