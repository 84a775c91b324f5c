//! O modo residente: as decisões do servidor local.
//!
//! O servidor escuta só em `127.0.0.1`, exige o token da execução em toda rota,
//! observa por padrão e, quando uma ação pede permissão, guarda-a como uma
//! pendência de uso único, com `id` e prazo. Aqui ficam essas decisões e os
//! textos que saem delas; o socket, o relógio e a execução são do programa.
use vstd::prelude::*;
use crate::diario::digito_hex;
use crate::registro::Chamada;
use crate::texto::{
    acrescentar_str, aparado, aparar_str, copiar, decimal, escrever_decimal, branco, caracteres, caracteres_de, comeca, comeca_com, cortar,
    e_branco, iguais, igual_str, pedacos_por, string_de, vistas,
};

verus! {

/// Teto de bytes por linha de pedido. Sem ele, um cliente que nunca manda `\n`
/// cresce o buffer até a memória acabar.
pub const MAX_LINHA: usize = 8192;

/// Quanto tempo, em milissegundos, um "faz?" fica de pé.
pub const VALIDADE_CONFIRMACAO_MS: u64 = 120000;

/// A página, embutida: não há arquivo a instalar nem servidor de estáticos.
pub const PAGINA: &'static str = r##"<!doctype html><meta charset="utf-8">
<title>Teka</title>
<style>
 :root{color-scheme:dark light}
 body{font:15px/1.5 system-ui,sans-serif;max-width:46rem;margin:2rem auto;padding:0 1rem}
 h1{font-size:1.1rem;font-weight:600;opacity:.7;margin:0 0 1rem}
 #log{display:flex;flex-direction:column;gap:.6rem;margin-bottom:1rem}
 .p{opacity:.65}
 .r{font-family:ui-monospace,Consolas,monospace;font-size:13px;white-space:pre-wrap;
    word-break:break-word;border-left:2px solid currentColor;padding-left:.7rem;opacity:.9}
 .e{border-left-color:#c00;opacity:.8}
 form{display:flex;gap:.5rem}
 input{flex:1;padding:.6rem;font:inherit;border:1px solid;border-radius:.4rem;
   background:transparent;color:inherit}
 button{padding:.6rem 1rem;font:inherit;border-radius:.4rem;cursor:pointer}
 .c{border:1px solid #b80;border-radius:.5rem;padding:.7rem .9rem;display:flex;
    flex-direction:column;gap:.6rem}
 .c b{font-weight:600}
 .c code{font-family:ui-monospace,Consolas,monospace;font-size:13px;
    word-break:break-word;opacity:.85}
 .c div{display:flex;gap:.5rem;align-items:center}
 .c .nao{opacity:.7}
 .c small{opacity:.6;margin-left:auto}
</style>
<h1>Teka — residente</h1>
<div id=log></div>
<form id=f><input id=q autofocus autocomplete=off placeholder="que horas sao"><button>ir</button></form>
<script>
const log=document.getElementById('log'), f=document.getElementById('f'), q=document.getElementById('q');
const t=new URLSearchParams(location.search).get('t')||'';
function linha(txt,cls){const d=document.createElement('div');d.className=cls;d.textContent=txt;log.append(d);
  window.scrollTo(0,document.body.scrollHeight);}

// O "faz?". A pagina NAO decide nada: ela mostra a chamada exata que a Teka montou
// e devolve o `id` que veio junto. Quem autoriza e quem clica.
function perguntar(c){
  const cx=document.createElement('div'); cx.className='c';
  const tit=document.createElement('b'); tit.textContent='fazer isto?';
  const cod=document.createElement('code'); cod.textContent=c.chamada;
  const bar=document.createElement('div');
  const sim=document.createElement('button'); sim.textContent='sim, faz';
  const nao=document.createElement('button'); nao.textContent='nao'; nao.className='nao';
  const rel=document.createElement('small');
  bar.append(sim,nao,rel); cx.append(tit,cod,bar); log.append(cx);
  window.scrollTo(0,document.body.scrollHeight);

  // O relogio nao e enfeite: o servidor recusa depois do prazo, e ver isso na tela
  // evita clicar num botao que ja nao vale.
  let resta=c.segundos|0;
  const tique=setInterval(()=>{
    resta--; rel.textContent=resta>0?(resta+'s'):'expirou';
    if(resta<=0){ clearInterval(tique); sim.disabled=nao.disabled=true; }
  },1000);
  rel.textContent=resta+'s';

  const responder=async v=>{
    clearInterval(tique); sim.disabled=nao.disabled=true; rel.textContent='';
    try{
      const r=await fetch('/confirmar?t='+encodeURIComponent(t),{method:'POST',
        body:'id='+encodeURIComponent(c.id)+'&resposta='+v});
      const j=await r.json();
      linha(j.erro?('erro: '+j.erro):(j.recusado?'nao fiz.':(j.saida||'(sem resposta)')),
            j.erro?'r e':'r');
    }catch(err){ linha('nao consegui responder: '+err,'r e'); }
  };
  sim.onclick=()=>responder('sim');
  nao.onclick=()=>responder('nao');
}

f.onsubmit=async e=>{
  e.preventDefault();
  const texto=q.value.trim(); if(!texto) return;
  q.value=''; linha(texto,'p');
  try{
    const r=await fetch('/pedido?t='+encodeURIComponent(t),{method:'POST',body:texto});
    const j=await r.json();
    if(j.confirmar){ perguntar(j.confirmar); return; }
    linha(j.erro?('erro: '+j.erro):(j.saida||j.decidiu||'(sem resposta)'), j.erro?'r e':'r');
  }catch(err){ linha('nao consegui falar com ela: '+err,'r e'); }
};
</script>"##;

#[derive(Debug)]
pub struct CfgServidor {
    pub porta: u16,
    /// Executa a ferramenta, ou só devolve a chamada? `false` é o modo observador.
    pub executar: bool,
}

impl Default for CfgServidor {
    /// Observar por padrão: agir tem de ser escolha explícita.
    fn default() -> (r: Self)
        ensures
            r.porta == 8931,
            !r.executar,
    {
        CfgServidor { porta: 8931, executar: false }
    }
}

// ───────────────────────────── escape dentro de uma string JSON

/// Como um caractere vai dentro de uma string JSON da resposta.
pub open spec fn escape_resposta(c: char) -> Seq<char> {
    if c == '"' {
        seq!['\\', '"']
    } else if c == '\\' {
        seq!['\\', '\\']
    } else if c == '\n' {
        seq!['\\', 'n']
    } else if c == '\r' {
        seq!['\\', 'r']
    } else if c == '\t' {
        seq!['\\', 't']
    } else if (c as u32) < 0x20 {
        seq!['\\', 'u', '0', '0', digito_hex(((c as u32) / 16) as u64), digito_hex(((c as u32) % 16) as u64)]
    } else {
        seq![c]
    }
}

pub open spec fn escapado_resposta(s: Seq<char>) -> Seq<char>
    decreases s.len(),
{
    if s.len() == 0 {
        seq![]
    } else {
        escapado_resposta(s.drop_last()) + escape_resposta(s.last())
    }
}

proof fn lema_escape_sem_controle(c: char)
    ensures
        forall|i: int| 0 <= i < escape_resposta(c).len() ==> (#[trigger] escape_resposta(c)[i] as u32) >= 0x20,
{
    if (c as u32) < 0x20 && c != '\n' && c != '\r' && c != '\t' {
        let a = ((c as u32) / 16) as u64;
        let b = ((c as u32) % 16) as u64;
        assert(a < 2);
        assert(digito_hex(a) as u32 >= 0x30);
        assert(digito_hex(b) as u32 >= 0x30);
    }
}

/// A resposta escapada não tem caractere de controle: quebra de linha, retorno e
/// tabulação viram `\n`, `\r`, `\t`, e o resto do controle vira `\u00XX`. A resposta
/// fica numa linha só, qualquer que seja a saída da ferramenta.
pub proof fn lei_a_resposta_fica_numa_linha(s: Seq<char>)
    ensures
        forall|i: int| 0 <= i < escapado_resposta(s).len() ==> (#[trigger] escapado_resposta(s)[i] as u32) >= 0x20,
    decreases s.len(),
{
    if s.len() > 0 {
        lei_a_resposta_fica_numa_linha(s.drop_last());
        lema_escape_sem_controle(s.last());
        let a = escapado_resposta(s.drop_last());
        let b = escape_resposta(s.last());
        assert forall|i: int| 0 <= i < escapado_resposta(s).len() implies (#[trigger] escapado_resposta(s)[i] as u32) >= 0x20 by {
            if i < a.len() {
                assert(escapado_resposta(s)[i] == a[i]);
            } else {
                assert(escapado_resposta(s)[i] == b[i - a.len()]);
            }
        }
    }
}

fn hexa(v: u32) -> (c: char)
    requires
        v < 16,
    ensures
        c == digito_hex(v as u64),
{
    if v < 10 {
        ((v + 48) as u8) as char
    } else {
        ((v + 87) as u8) as char
    }
}

/// O texto pronto para ir entre aspas numa resposta de uma linha só.
pub fn escapar(s: &str) -> (r: String)
    ensures
        r@ == escapado_resposta(s@),
{
    let c = caracteres(s);
    let mut r: Vec<char> = Vec::new();
    let mut i: usize = 0;
    assert(s@.take(0) =~= Seq::<char>::empty());
    while i < c.len()
        invariant
            i <= c@.len(),
            c@ == s@,
            r@ == escapado_resposta(s@.take(i as int)),
        decreases c.len() - i,
    {
        let x = c[i];
        assert(s@.take(i + 1).drop_last() =~= s@.take(i as int));
        proof {
            vstd::utf8::char_is_scalar(x);
        }
        let v = x as u32;
        if x == '"' {
            r.push('\\');
            r.push('"');
        } else if x == '\\' {
            r.push('\\');
            r.push('\\');
        } else if x == '\n' {
            r.push('\\');
            r.push('n');
        } else if x == '\r' {
            r.push('\\');
            r.push('r');
        } else if x == '\t' {
            r.push('\\');
            r.push('t');
        } else if v < 0x20 {
            r.push('\\');
            r.push('u');
            r.push('0');
            r.push('0');
            r.push(hexa(v / 16));
            r.push(hexa(v % 16));
        } else {
            r.push(x);
        }
        i = i + 1;
        assert(r@ =~= escapado_resposta(s@.take(i as int)));
    }
    assert(s@.take(c.len() as int) =~= s@);
    string_de(r.as_slice())
}

// ───────────────────────────── o token da execução

/// Um passo do xorshift64.
pub open spec fn xorshift64(x: u64) -> u64 {
    let a = x ^ (x << 13u64);
    let b = a ^ (a >> 7u64);
    b ^ (b << 17u64)
}

pub open spec fn estado_token(x: u64, n: nat) -> u64
    decreases n,
{
    if n == 0 {
        x
    } else {
        xorshift64(estado_token(x, (n - 1) as nat))
    }
}

/// Os 24 dígitos hexadecimais que saem de uma semente.
pub open spec fn token_de_semente(x: u64) -> Seq<char> {
    Seq::new(24, |i: int| digito_hex(estado_token(x, (i + 1) as nat) & 15u64))
}

/// A semente: o relógio misturado com um endereço girado 17 bits.
pub fn semente_do_token(relogio: u64, endereco: u64) -> (r: u64)
    ensures
        r == relogio ^ ((endereco << 17u64) | (endereco >> 47u64)),
{
    relogio ^ ((endereco << 17) | (endereco >> 47))
}

/// O token de uma execução, a partir de uma semente imprevisível de fora.
pub fn token(semente: u64) -> (r: String)
    ensures
        r@ == token_de_semente(semente),
{
    let mut x = semente;
    let mut v: Vec<char> = Vec::new();
    let mut i: usize = 0;
    while i < 24
        invariant
            i <= 24,
            x == estado_token(semente, i as nat),
            v@.len() == i,
            forall|k: int| 0 <= k < i ==> v@[k] == digito_hex(estado_token(semente, (k + 1) as nat) & 15u64),
        decreases 24 - i,
    {
        x = x ^ (x << 13);
        x = x ^ (x >> 7);
        x = x ^ (x << 17);
        let d = x & 15;
        assert(d < 16) by (bit_vector)
            requires
                d == x & 15,
        ;
        v.push(hexa(d as u32));
        i = i + 1;
    }
    assert(v@ =~= token_de_semente(semente));
    string_de(v.as_slice())
}

/// Todo token tem 24 caracteres, todos dígitos hexadecimais minúsculos.
pub proof fn lei_token_e_hexa(semente: u64)
    ensures
        token_de_semente(semente).len() == 24,
        forall|i: int| 0 <= i < 24 ==> {
            let c = #[trigger] token_de_semente(semente)[i];
            ('0' <= c && c <= '9') || ('a' <= c && c <= 'f')
        },
{
    assert forall|i: int| 0 <= i < 24 implies {
        let c = #[trigger] token_de_semente(semente)[i];
        ('0' <= c && c <= '9') || ('a' <= c && c <= 'f')
    } by {
        let x = estado_token(semente, (i + 1) as nat);
        let d = x & 15u64;
        assert(d < 16) by (bit_vector)
            requires
                d == x & 15u64,
        ;
    }
}

// ───────────────────────────── o "faz?": pendência de uso único

/// Uma ação que parou para pedir permissão, esperando resposta pela página.
/// O `id` amarra a resposta a esta chamada; `nascido_ms` marca quando a pergunta
/// foi feita, no relógio do programa.
#[derive(Debug)]
pub struct Pendente {
    pub id: String,
    pub pedido: String,
    pub chamada: Chamada,
    pub nascido_ms: u64,
}

/// O que fazer com uma resposta ao "faz?".
#[derive(Debug)]
pub enum Confirmacao {
    NadaEsperando,
    OutraAcao,
    Expirou,
    Recusado(String),
    Executar(Chamada),
}

/// A pergunta passou do prazo.
pub open spec fn expirou(nascido_ms: u64, agora_ms: u64) -> bool {
    agora_ms >= nascido_ms && agora_ms - nascido_ms > VALIDADE_CONFIRMACAO_MS
}

/// As quatro travas da confirmação. A pendência é consumida sempre, antes de
/// qualquer outra coisa: um botão clicado duas vezes não executa duas vezes.
pub fn decidir_confirmacao(
    pendente: &mut Option<Pendente>,
    id: &str,
    autorizou: bool,
    agora_ms: u64,
) -> (r: Confirmacao)
    ensures
        final(pendente).is_none(),
        old(pendente).is_none() ==> r is NadaEsperando,
        *old(pendente) matches Some(p) ==> {
            if p.id@ != id@ {
                r is OutraAcao
            } else if expirou(p.nascido_ms, agora_ms) {
                r is Expirou
            } else if !autorizou {
                r == Confirmacao::Recusado(p.pedido)
            } else {
                r == Confirmacao::Executar(p.chamada)
            }
        },
{
    let p = match pendente.take() {
        None => {
            return Confirmacao::NadaEsperando;
        },
        Some(p) => p,
    };
    let meu = caracteres_de(&p.id);
    if !igual_str(meu.as_slice(), id) {
        return Confirmacao::OutraAcao;
    }
    if agora_ms >= p.nascido_ms && agora_ms - p.nascido_ms > VALIDADE_CONFIRMACAO_MS {
        return Confirmacao::Expirou;
    }
    if !autorizou {
        return Confirmacao::Recusado(p.pedido);
    }
    Confirmacao::Executar(p.chamada)
}

// ───────────────────────────── as respostas em JSON

/// `{"erro":"<msg>"}`.
pub open spec fn json_erro_de(msg: Seq<char>) -> Seq<char> {
    "{\"erro\":\""@ + escapado_resposta(msg) + "\"}"@
}

pub fn json_erro(msg: &str) -> (r: String)
    ensures
        r@ == json_erro_de(msg@),
{
    let mut r = String::new();
    acrescentar_str(&mut r, "{\"erro\":\"");
    let e = escapar(msg);
    acrescentar_str(&mut r, e.as_str());
    acrescentar_str(&mut r, "\"}");
    r
}

/// `{"recusado":true,"pedido":"<pedido>"}`.
pub open spec fn json_recusado_de(pedido: Seq<char>) -> Seq<char> {
    "{\"recusado\":true,\"pedido\":\""@ + escapado_resposta(pedido) + "\"}"@
}

pub fn json_recusado(pedido: &str) -> (r: String)
    ensures
        r@ == json_recusado_de(pedido@),
{
    let mut r = String::new();
    acrescentar_str(&mut r, "{\"recusado\":true,\"pedido\":\"");
    let e = escapar(pedido);
    acrescentar_str(&mut r, e.as_str());
    acrescentar_str(&mut r, "\"}");
    r
}

/// O que a execução autorizada devolve: `{"saida":"..","executou":true}` ou o erro.
pub open spec fn json_execucao_de(r: Result<Seq<char>, Seq<char>>) -> Seq<char> {
    match r {
        Ok(s) => "{\"saida\":\""@ + escapado_resposta(s) + "\",\"executou\":true}"@,
        Err(e) => json_erro_de(e),
    }
}

pub fn json_execucao(saida: &Result<String, String>) -> (r: String)
    ensures
        r@ == json_execucao_de(
            match saida {
                Ok(s) => Ok(s@),
                Err(e) => Err(e@),
            },
        ),
{
    match saida {
        Ok(s) => {
            let mut r = String::new();
            acrescentar_str(&mut r, "{\"saida\":\"");
            let e = escapar(s.as_str());
            acrescentar_str(&mut r, e.as_str());
            acrescentar_str(&mut r, "\",\"executou\":true}");
            r
        },
        Err(e) => json_erro(e.as_str()),
    }
}

/// A resposta a uma confirmação que não chega a executar nada; `None` quando a
/// decisão é executar, e a resposta vem da execução.
pub fn json_da_confirmacao(c: &Confirmacao) -> (r: Option<String>)
    ensures
        c is Executar <==> r is None,
        c is NadaEsperando ==> (r matches Some(s) && s@ == json_erro_de(
            "nao ha nada esperando confirmacao"@,
        )),
        c is OutraAcao ==> (r matches Some(s) && s@ == json_erro_de(
            "essa resposta nao e desta acao"@,
        )),
        c is Expirou ==> (r matches Some(s) && s@ == json_erro_de(
            "a pergunta expirou; peca de novo"@,
        )),
        c matches Confirmacao::Recusado(p) ==> (r matches Some(s) && s@ == json_recusado_de(p@)),
{
    match c {
        Confirmacao::NadaEsperando => Some(json_erro("nao ha nada esperando confirmacao")),
        Confirmacao::OutraAcao => Some(json_erro("essa resposta nao e desta acao")),
        Confirmacao::Expirou => Some(json_erro("a pergunta expirou; peca de novo")),
        Confirmacao::Recusado(p) => Some(json_recusado(p.as_str())),
        Confirmacao::Executar(_) => None,
    }
}

/// A pergunta que vai para a página:
/// `{"confirmar":{"id":"..","chamada":"..","segundos":120}}`.
pub open spec fn json_pergunta_de(id: Seq<char>, chamada: Seq<char>) -> Seq<char> {
    "{\"confirmar\":{\"id\":\""@ + escapado_resposta(id) + "\",\"chamada\":\""@
        + escapado_resposta(chamada) + "\",\"segundos\":120}}"@
}

pub fn json_pergunta(id: &str, chamada: &str) -> (r: String)
    ensures
        r@ == json_pergunta_de(id@, chamada@),
{
    let mut r = String::new();
    acrescentar_str(&mut r, "{\"confirmar\":{\"id\":\"");
    let e = escapar(id);
    acrescentar_str(&mut r, e.as_str());
    acrescentar_str(&mut r, "\",\"chamada\":\"");
    let c = escapar(chamada);
    acrescentar_str(&mut r, c.as_str());
    acrescentar_str(&mut r, "\",\"segundos\":120}}");
    r
}

// ───────────────────────────── as rotas

/// `split_whitespace`, passo a passo: as palavras já fechadas e a que está aberta.
pub open spec fn varrer_palavras(s: Seq<char>) -> (Seq<Seq<char>>, Seq<char>)
    decreases s.len(),
{
    if s.len() == 0 {
        (seq![], seq![])
    } else {
        let p = varrer_palavras(s.drop_last());
        if e_branco(s.last()) {
            if p.1.len() > 0 {
                (p.0.push(p.1), seq![])
            } else {
                (p.0, seq![])
            }
        } else {
            (p.0, p.1.push(s.last()))
        }
    }
}

/// `s.split_whitespace()`.
pub open spec fn palavras(s: Seq<char>) -> Seq<Seq<char>> {
    let p = varrer_palavras(s);
    if p.1.len() > 0 {
        p.0.push(p.1)
    } else {
        p.0
    }
}

pub fn palavras_de(s: &[char]) -> (r: Vec<Vec<char>>)
    ensures
        vistas(r@) == palavras(s@),
{
    let mut ws: Vec<Vec<char>> = Vec::new();
    let mut atual: Vec<char> = Vec::new();
    let mut i: usize = 0;
    assert(s@.take(0) =~= Seq::<char>::empty());
    assert(vistas(ws@) =~= Seq::<Seq<char>>::empty());
    while i < s.len()
        invariant
            i <= s.len(),
            vistas(ws@) == varrer_palavras(s@.take(i as int)).0,
            atual@ == varrer_palavras(s@.take(i as int)).1,
        decreases s.len() - i,
    {
        let x = s[i];
        assert(s@.take(i + 1).drop_last() =~= s@.take(i as int));
        if branco(x) {
            if atual.len() > 0 {
                let ghost antes = ws@;
                let ghost a = atual@;
                ws.push(atual);
                atual = Vec::new();
                assert(vistas(ws@) =~= vistas(antes).push(a));
            }
        } else {
            atual.push(x);
        }
        i = i + 1;
    }
    assert(s@.take(s.len() as int) =~= s@);
    if atual.len() > 0 {
        let ghost antes = ws@;
        let ghost a = atual@;
        ws.push(atual);
        assert(vistas(ws@) =~= vistas(antes).push(a));
    }
    ws
}

/// Onde está o primeiro `c` de `s`; o comprimento, se não houver.
pub open spec fn posicao(s: Seq<char>, c: char) -> int
    decreases s.len(),
{
    if s.len() == 0 {
        0
    } else {
        let p = posicao(s.drop_last(), c);
        if p < s.len() - 1 {
            p
        } else if s.last() == c {
            s.len() - 1
        } else {
            s.len() as int
        }
    }
}

proof fn lema_posicao(s: Seq<char>, c: char)
    ensures
        0 <= posicao(s, c) <= s.len(),
        posicao(s, c) < s.len() ==> s[posicao(s, c)] == c,
        forall|k: int| 0 <= k < posicao(s, c) ==> s[k] != c,
    decreases s.len(),
{
    if s.len() > 0 {
        lema_posicao(s.drop_last(), c);
        assert forall|k: int| 0 <= k < posicao(s, c) implies s[k] != c by {
            if k < s.len() - 1 {
                assert(s[k] == s.drop_last()[k]);
            }
        }
    }
}

fn achar_char(s: &[char], c: char) -> (r: usize)
    ensures
        r == posicao(s@, c),
{
    let mut i: usize = 0;
    assert(s@.take(0) =~= Seq::<char>::empty());
    while i < s.len()
        invariant
            i <= s.len(),
            posicao(s@.take(i as int), c) == i,
        decreases s.len() - i,
    {
        assert(s@.take(i + 1).drop_last() =~= s@.take(i as int));
        if s[i] == c {
            proof {
                lema_posicao(s@, c);
                lema_prefixo_posicao(s@, c, i as int);
            }
            return i;
        }
        i = i + 1;
    }
    assert(s@.take(s.len() as int) =~= s@);
    i
}

proof fn lema_prefixo_posicao(s: Seq<char>, c: char, i: int)
    requires
        0 <= i < s.len(),
        s[i] == c,
        posicao(s.take(i), c) == i,
    ensures
        posicao(s, c) == i,
    decreases s.len(),
{
    if i < s.len() - 1 {
        assert(s.drop_last().take(i) =~= s.take(i));
        lema_prefixo_posicao(s.drop_last(), c, i);
    } else {
        assert(s.drop_last() =~= s.take(i));
    }
}

/// O valor do primeiro pedaço que começa com `chave`, sem a chave; vazio se nenhum.
pub open spec fn valor_do_campo(ps: Seq<Seq<char>>, chave: Seq<char>) -> Seq<char>
    decreases ps.len(),
{
    if ps.len() == 0 {
        seq![]
    } else if comeca_com(ps[0], chave) {
        ps[0].skip(chave.len() as int)
    } else {
        valor_do_campo(ps.drop_first(), chave)
    }
}

/// `texto.split('&').find_map(|p| p.strip_prefix(chave)).unwrap_or("")`.
pub open spec fn campo_de(texto: Seq<char>, chave: Seq<char>) -> Seq<char> {
    valor_do_campo(pedacos_por(texto, '&'), chave)
}

fn campo_em(texto: &[char], chave: &[char]) -> (r: Vec<char>)
    ensures
        r@ == campo_de(texto@, chave@),
{
    let ps = cortar(texto, '&');
    let mut i: usize = 0;
    assert(vistas(ps@).skip(0) =~= vistas(ps@));
    while i < ps.len()
        invariant
            i <= ps.len(),
            vistas(ps@) == pedacos_por(texto@, '&'),
            valor_do_campo(vistas(ps@).skip(i as int), chave@) == campo_de(texto@, chave@),
        decreases ps.len() - i,
    {
        let p = &ps[i];
        assert(vistas(ps@).skip(i as int)[0] == p@);
        assert(vistas(ps@).skip(i as int).drop_first() =~= vistas(ps@).skip(i + 1));
        if comeca(p.as_slice(), chave) {
            let mut v: Vec<char> = Vec::new();
            let mut k: usize = chave.len();
            while k < p.len()
                invariant
                    chave@.len() <= k <= p@.len(),
                    v@ == p@.subrange(chave@.len() as int, k as int),
                decreases p.len() - k,
            {
                v.push(p[k]);
                k = k + 1;
                assert(v@ =~= p@.subrange(chave@.len() as int, k as int));
            }
            assert(v@ =~= p@.skip(chave@.len() as int));
            return v;
        }
        i = i + 1;
    }
    assert(vistas(ps@).skip(i as int) =~= Seq::<Seq<char>>::empty());
    Vec::new()
}

/// O valor de um campo `chave=valor` de um corpo ou consulta separado por `&`.
pub fn campo(texto: &str, chave: &str) -> (r: String)
    ensures
        r@ == campo_de(texto@, chave@),
{
    let t = caracteres(texto);
    let k = caracteres(chave);
    let v = campo_em(t.as_slice(), k.as_slice());
    string_de(v.as_slice())
}

/// Para onde vai uma requisição HTTP.
#[derive(Debug, PartialEq, Eq, Structural)]
pub enum Rota {
    Proibido,
    Pagina,
    Pedido,
    Confirmar,
    NaoExiste,
}

pub open spec fn metodo_de(req: Seq<char>) -> Seq<char> {
    let ps = palavras(req);
    if ps.len() > 0 {
        ps[0]
    } else {
        seq![]
    }
}

pub open spec fn alvo_de(req: Seq<char>) -> Seq<char> {
    let ps = palavras(req);
    if ps.len() > 1 {
        ps[1]
    } else {
        "/"@
    }
}

pub open spec fn caminho_de(alvo: Seq<char>) -> Seq<char> {
    alvo.take(posicao(alvo, '?'))
}

pub open spec fn consulta_de(alvo: Seq<char>) -> Seq<char> {
    let k = posicao(alvo, '?');
    if k < alvo.len() {
        alvo.skip(k + 1)
    } else {
        seq![]
    }
}

/// O token que a requisição traz na consulta (`t=`).
pub open spec fn token_dado(req: Seq<char>) -> Seq<char> {
    campo_de(consulta_de(alvo_de(req)), "t="@)
}

pub open spec fn rota_de(req: Seq<char>, token: Seq<char>) -> Rota {
    let metodo = metodo_de(req);
    let caminho = caminho_de(alvo_de(req));
    if token_dado(req) != token {
        Rota::Proibido
    } else if metodo == "GET"@ && (caminho == "/"@ || caminho == "/index.html"@) {
        Rota::Pagina
    } else if metodo == "POST"@ && caminho == "/pedido"@ {
        Rota::Pedido
    } else if metodo == "POST"@ && caminho == "/confirmar"@ {
        Rota::Confirmar
    } else {
        Rota::NaoExiste
    }
}

/// A rota de uma primeira linha de requisição. O token é exigido em toda rota,
/// inclusive na da página.
pub fn rota(requisicao: &str, token: &str) -> (r: Rota)
    ensures
        r == rota_de(requisicao@, token@),
        !(r is Proibido) ==> token_dado(requisicao@) == token@,
{
    let req = caracteres(requisicao);
    let ps = palavras_de(req.as_slice());
    let metodo: Vec<char> = if ps.len() > 0 {
        let m = copiar_chars(ps[0].as_slice());
        m
    } else {
        Vec::new()
    };
    let alvo: Vec<char> = if ps.len() > 1 {
        copiar_chars(ps[1].as_slice())
    } else {
        let b = caracteres("/");
        b
    };
    let k = achar_char(alvo.as_slice(), '?');
    proof {
        lema_posicao(alvo@, '?');
    }
    let mut caminho: Vec<char> = Vec::new();
    let mut i: usize = 0;
    while i < k
        invariant
            i <= k <= alvo@.len(),
            caminho@ == alvo@.take(i as int),
        decreases k - i,
    {
        caminho.push(alvo[i]);
        i = i + 1;
        assert(caminho@ =~= alvo@.take(i as int));
    }
    let mut consulta: Vec<char> = Vec::new();
    if k < alvo.len() {
        let mut j: usize = k + 1;
        while j < alvo.len()
            invariant
                k < alvo@.len(),
                k + 1 <= j <= alvo@.len(),
                consulta@ == alvo@.subrange(k + 1, j as int),
            decreases alvo.len() - j,
        {
            consulta.push(alvo[j]);
            j = j + 1;
            assert(consulta@ =~= alvo@.subrange(k + 1, j as int));
        }
        assert(consulta@ =~= alvo@.skip(k + 1));
    } else {
        assert(consulta@ =~= Seq::<char>::empty());
    }
    let chave_t = caracteres("t=");
    let dado = campo_em(consulta.as_slice(), chave_t.as_slice());
    let tk = caracteres(token);
    if !iguais(dado.as_slice(), tk.as_slice()) {
        return Rota::Proibido;
    }
    let e_get = igual_str(metodo.as_slice(), "GET");
    let e_post = igual_str(metodo.as_slice(), "POST");
    if e_get && (igual_str(caminho.as_slice(), "/") || igual_str(caminho.as_slice(), "/index.html")) {
        Rota::Pagina
    } else if e_post && igual_str(caminho.as_slice(), "/pedido") {
        Rota::Pedido
    } else if e_post && igual_str(caminho.as_slice(), "/confirmar") {
        Rota::Confirmar
    } else {
        Rota::NaoExiste
    }
}

fn copiar_chars(v: &[char]) -> (r: Vec<char>)
    ensures
        r@ == v@,
{
    let mut r: Vec<char> = Vec::new();
    let mut i: usize = 0;
    while i < v.len()
        invariant
            i <= v.len(),
            r@ == v@.take(i as int),
        decreases v.len() - i,
    {
        r.push(v[i]);
        i = i + 1;
        assert(r@ =~= v@.take(i as int));
    }
    assert(v@.take(v.len() as int) =~= v@);
    r
}

// ───────────────────────────── o protocolo de linha

/// A primeira linha abre uma requisição HTTP, e não um pedido de linha.
pub open spec fn abre_http(l: Seq<char>) -> bool {
    comeca_com(l, "GET "@) || comeca_com(l, "POST "@)
}

pub fn e_http(linha: &str) -> (r: bool)
    ensures
        r == abre_http(linha@),
{
    let l = caracteres(linha);
    let g = caracteres("GET ");
    let p = caracteres("POST ");
    comeca(l.as_slice(), g.as_slice()) || comeca(l.as_slice(), p.as_slice())
}

/// Uma linha do protocolo de linha, já aparada.
#[derive(Debug)]
pub enum Linha {
    Vazia,
    LongaDemais,
    Pedido(String),
}

/// Linha em branco é ignorada; linha com mais de [`MAX_LINHA`] bytes é recusada;
/// o resto é um pedido, sem o espaço das pontas.
pub fn classificar_linha(linha: &str) -> (r: Linha)
    ensures
        aparado(linha@).len() == 0 <==> r is Vazia,
        (aparado(linha@).len() > 0 && vstd::utf8::encode_utf8(aparado(linha@)).len() > MAX_LINHA)
            <==> r is LongaDemais,
        r matches Linha::Pedido(p) ==> p@ == aparado(linha@),
{
    let t = aparar_str(linha);
    if t.len() == 0 {
        return Linha::Vazia;
    }
    let s = string_de(t.as_slice());
    let n = s.as_str().as_bytes().len();
    if n > MAX_LINHA {
        Linha::LongaDemais
    } else {
        Linha::Pedido(s)
    }
}

/// A resposta à linha longa demais.
pub fn json_longo_demais() -> (r: String)
    ensures
        r@ == json_erro_de("pedido longo demais"@),
{
    json_erro("pedido longo demais")
}

// ───────────────────────────── a conversa HTTP

pub open spec fn e_digito(c: char) -> bool {
    '0' <= c && c <= '9'
}

/// O valor decimal de uma sequência de dígitos ASCII.
pub open spec fn valor_digitos(s: Seq<char>) -> nat
    decreases s.len(),
{
    if s.len() == 0 {
        0
    } else {
        valor_digitos(s.drop_last()) * 10 + ((s.last() as int) - 48) as nat
    }
}

/// `usize::from_str`: um `+` opcional e ao menos um dígito ASCII, sem passar de
/// `usize::MAX`.
pub open spec fn numero_usize(s: Seq<char>) -> Option<usize> {
    if so_digitos(sem_mais(s)) && valor_digitos(sem_mais(s)) <= usize::MAX {
        Some(valor_digitos(sem_mais(s)) as usize)
    } else {
        None
    }
}

/// Sem o `+` da frente, se há um.
pub open spec fn sem_mais(s: Seq<char>) -> Seq<char> {
    if s.len() > 0 && s[0] == '+' {
        s.drop_first()
    } else {
        s
    }
}

/// Ao menos um caractere, e todos dígitos ASCII.
pub open spec fn so_digitos(d: Seq<char>) -> bool {
    d.len() > 0 && forall|i: int| 0 <= i < d.len() ==> e_digito(#[trigger] d[i])
}

proof fn lema_valor_cresce(s: Seq<char>, i: int)
    requires
        0 <= i <= s.len(),
        forall|k: int| 0 <= k < s.len() ==> e_digito(#[trigger] s[k]),
    ensures
        valor_digitos(s.take(i)) <= valor_digitos(s),
    decreases s.len() - i,
{
    if i < s.len() {
        lema_valor_cresce(s, i + 1);
        assert(s.take(i + 1).drop_last() =~= s.take(i));
        assert(e_digito(s[i]));
    } else {
        assert(s.take(i) =~= s);
    }
}

fn numero_usize_exec(s: &[char]) -> (r: Option<usize>)
    ensures
        r == numero_usize(s@),
{
    let n = s.len();
    let ini: usize = if n > 0 && s[0] == '+' {
        1
    } else {
        0
    };
    let ghost d = sem_mais(s@);
    assert(d =~= s@.subrange(ini as int, n as int));
    if n == ini {
        return None;
    }
    let mut v: usize = 0;
    let mut i: usize = ini;
    assert(d.take(0) =~= Seq::<char>::empty());
    while i < n
        invariant
            ini <= i <= n,
            n == s@.len(),
            d == s@.subrange(ini as int, n as int),
            d == sem_mais(s@),
            d.len() > 0,
            v == valor_digitos(d.take(i - ini)),
            forall|k: int| 0 <= k < i - ini ==> e_digito(#[trigger] d[k]),
        decreases n - i,
    {
        let c = s[i];
        assert(c == d[i - ini]);
        if !('0' <= c && c <= '9') {
            assert(!e_digito(d[i - ini]));
            return None;
        }
        let dg: usize = ((c as u32) - 48) as usize;
        assert(d.take(i - ini + 1).drop_last() =~= d.take(i - ini));
        assert(dg == (c as int) - 48);
        if v > (usize::MAX - dg) / 10 {
            proof {
                assert(v * 10 + dg > usize::MAX) by (nonlinear_arith)
                    requires
                        v > (usize::MAX - dg) / 10,
                        dg <= 9,
                ;
                let w = d.take(i - ini + 1);
                assert(w.drop_last() =~= d.take(i - ini));
                assert(w.last() == c);
                assert(valor_digitos(w) == v * 10 + dg);
                if so_digitos(d) {
                    lema_valor_cresce(d, i - ini + 1);
                }
            }
            return None;
        }
        proof {
            assert(v * 10 + dg <= usize::MAX) by (nonlinear_arith)
                requires
                    v <= (usize::MAX - dg) / 10,
                    dg <= 9,
            ;
        }
        v = v * 10 + dg;
        i = i + 1;
    }
    assert(d.take(n - ini) =~= d);
    Some(v)
}

/// Uma linha do cabeçalho de uma requisição HTTP.
#[derive(Debug, PartialEq, Eq, Structural)]
pub enum CabecalhoHttp {
    /// Linha em branco: acabou o cabeçalho.
    Fim,
    /// `Content-Length` (sem olhar a caixa); um valor que não é número conta zero.
    Tamanho(usize),
    /// Outro cabeçalho qualquer.
    Outro,
}

pub open spec fn cabecalho_http_de(l: Seq<char>) -> CabecalhoHttp {
    if aparado(l).len() == 0 {
        CabecalhoHttp::Fim
    } else if l.len() >= 15 && crate::ponte::igual_sem_caixa(l.take(15), "content-length:"@) {
        CabecalhoHttp::Tamanho(
            match numero_usize(aparado(l.skip(15))) {
                Some(n) => n,
                None => 0,
            },
        )
    } else {
        CabecalhoHttp::Outro
    }
}

/// O que uma linha do cabeçalho diz.
pub fn cabecalho_http(linha: &str) -> (r: CabecalhoHttp)
    ensures
        r == cabecalho_http_de(linha@),
{
    let t = aparar_str(linha);
    if t.len() == 0 {
        return CabecalhoHttp::Fim;
    }
    let l = caracteres(linha);
    if l.len() < 15 {
        return CabecalhoHttp::Outro;
    }
    let pre = crate::texto::fatia(l.as_slice(), 0, 15);
    let m = caracteres("content-length:");
    assert(pre@ =~= l@.take(15));
    if !crate::ponte::igual_sem_caixa_exec(pre.as_slice(), m.as_slice()) {
        return CabecalhoHttp::Outro;
    }
    let resto = crate::texto::fatia(l.as_slice(), 15, l.len());
    assert(resto@ =~= l@.skip(15));
    let v = crate::texto::aparar(resto.as_slice());
    match numero_usize_exec(v.as_slice()) {
        Some(n) => CabecalhoHttp::Tamanho(n),
        None => CabecalhoHttp::Tamanho(0),
    }
}

pub open spec fn resposta_http_de(status: Seq<char>, tipo: Seq<char>, corpo: Seq<char>) -> Seq<char> {
    "HTTP/1.1 "@ + status + "\r\nContent-Type: "@ + tipo + "; charset=utf-8\r\nContent-Length: "@
        + decimal(vstd::utf8::encode_utf8(corpo).len() as u64) + "\r\nConnection: close\r\n\r\n"@ + corpo
}

/// A resposta HTTP inteira: a linha de estado, o tipo, o tamanho do corpo em bytes
/// e o corpo.
pub fn resposta_http(status: &str, tipo: &str, corpo: &str) -> (r: String)
    ensures
        r@ == resposta_http_de(status@, tipo@, corpo@),
{
    let mut r = copiar("HTTP/1.1 ");
    acrescentar_str(&mut r, status);
    acrescentar_str(&mut r, "\r\nContent-Type: ");
    acrescentar_str(&mut r, tipo);
    acrescentar_str(&mut r, "; charset=utf-8\r\nContent-Length: ");
    let n = corpo.as_bytes().len();
    let mut v: Vec<char> = Vec::new();
    escrever_decimal(n as u64, &mut v);
    let d = string_de(v.as_slice());
    acrescentar_str(&mut r, d.as_str());
    acrescentar_str(&mut r, "\r\nConnection: close\r\n\r\n");
    acrescentar_str(&mut r, corpo);
    r
}

/// O que responder a uma rota que não depende do corpo: (estado, tipo, corpo).
/// Pedido e confirmação dependem do corpo, e dão `None`.
pub fn resposta_da_rota(r: &Rota) -> (s: Option<(&'static str, &'static str, String)>)
    ensures
        match *r {
            Rota::Proibido => s matches Some(x) && x.0@ == "403 Forbidden"@ && x.1@ == "text/plain"@
                && x.2@ == "token invalido. abra a URL que apareceu no terminal."@,
            Rota::Pagina => s matches Some(x) && x.0@ == "200 OK"@ && x.1@ == "text/html"@ && x.2@
                == PAGINA@,
            Rota::NaoExiste => s matches Some(x) && x.0@ == "404 Not Found"@ && x.1@ == "text/plain"@
                && x.2@ == "nao existe"@,
            _ => s is None,
        },
{
    match r {
        Rota::Proibido => Some(
            ("403 Forbidden", "text/plain", copiar("token invalido. abra a URL que apareceu no terminal.")),
        ),
        Rota::Pagina => Some(("200 OK", "text/html", copiar(PAGINA))),
        Rota::NaoExiste => Some(("404 Not Found", "text/plain", copiar("nao existe"))),
        _ => None,
    }
}

/// O pedido que veio no corpo, sem o espaço das pontas; vazio é recusado com o
/// erro `pedido vazio`.
pub fn pedido_do_corpo(corpo: &str) -> (r: Result<String, String>)
    ensures
        aparado(corpo@).len() > 0 ==> (r matches Ok(p) && p@ == aparado(corpo@)),
        aparado(corpo@).len() == 0 ==> (r matches Err(e) && e@ == json_erro_de("pedido vazio"@)),
{
    let t = aparar_str(corpo);
    if t.len() == 0 {
        Err(json_erro("pedido vazio"))
    } else {
        Ok(string_de(t.as_slice()))
    }
}

/// A resposta que veio no corpo de uma confirmação: o `id` e se ela é `sim`.
pub fn confirmacao_do_corpo(corpo: &str) -> (r: (String, bool))
    ensures
        r.0@ == campo_de(corpo@, "id="@),
        r.1 == (campo_de(corpo@, "resposta="@) == "sim"@),
{
    let id = campo(corpo, "id=");
    let resp = campo(corpo, "resposta=");
    let c = caracteres(resp.as_str());
    let sim = igual_str(c.as_slice(), "sim");
    (id, sim)
}

} // verus!
