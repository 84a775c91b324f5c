//! Subir a ponte do Harness sozinha, quando ela ainda não está de pé.
//!
//! A ordem das decisões: o segredo do ambiente vence tudo; uma ponte que esta
//! execução subiu e que segue viva é reaproveitada; uma ponte alheia já
//! atendendo só serve se o segredo guardado abrir ela; senão sobe uma nova e
//! espera, com prazo, ela começar a atender. Aqui ficam essas decisões e as
//! mensagens; o ambiente, o processo, o arquivo e o socket são do programa.
use vstd::prelude::*;
use crate::texto::{
    acrescentar_str, aparado, aparar_str, copiar, depurado, depurar, string_de,
};

verus! {

/// Quanto esperar a ponte começar a atender, em segundos.
pub const PRAZO_SUBIDA_S: u64 = 20;

/// O nome do arquivo, dentro da casa do Harness, onde o segredo fica guardado.
pub const ARQUIVO_DO_SEGREDO: &'static str = ".teka-ponte-token";

/// O segredo do ambiente, se veio e não está vazio.
pub fn do_ambiente(v: Option<&str>) -> (r: Option<String>)
    ensures
        match v {
            Some(s) => if s@.len() > 0 {
                r matches Some(x) && x@ == s@
            } else {
                r is None
            },
            None => r is None,
        },
{
    match v {
        Some(s) => {
            let c = crate::texto::caracteres(s);
            if c.len() > 0 {
                Some(copiar(s))
            } else {
                None
            }
        },
        None => None,
    }
}

/// O segredo guardado num arquivo: o conteúdo sem o espaço das pontas, se sobra
/// alguma coisa.
pub fn segredo_guardado(conteudo: &str) -> (r: Option<String>)
    ensures
        if aparado(conteudo@).len() > 0 {
            r matches Some(x) && x@ == aparado(conteudo@)
        } else {
            r is None
        },
{
    let t = aparar_str(conteudo);
    if t.len() > 0 {
        Some(string_de(t.as_slice()))
    } else {
        None
    }
}

pub open spec fn recusa_alheia(endereco: Seq<char>) -> Seq<char> {
    "ja ha uma ponte atendendo em "@ + endereco
        + " e o segredo guardado nao abre ela.              Feche aquele processo, ou defina TEKA_PONTE_TOKEN com o segredo que ele usa."@
}

/// Já há uma ponte atendendo que esta execução não subiu: o segredo guardado
/// serve se `abre` (a conexão com ele deu certo); senão, a recusa que diz o que
/// fazer.
pub fn com_ponte_alheia(endereco: &str, guardado: Option<String>, abre: bool) -> (r: Result<String, String>)
    ensures
        match guardado {
            Some(s) => if abre {
                r matches Ok(x) && x@ == s@
            } else {
                r matches Err(e) && e@ == recusa_alheia(endereco@)
            },
            None => r matches Err(e) && e@ == recusa_alheia(endereco@),
        },
{
    match guardado {
        Some(s) => {
            if abre {
                return Ok(s);
            }
        },
        None => {},
    }
    let mut e = copiar("ja ha uma ponte atendendo em ");
    acrescentar_str(&mut e, endereco);
    acrescentar_str(
        &mut e,
        " e o segredo guardado nao abre ela.              Feche aquele processo, ou defina TEKA_PONTE_TOKEN com o segredo que ele usa.",
    );
    Err(e)
}

pub open spec fn erro_de_partida_de(nao_achou: bool, bin: Seq<char>, detalhe: Seq<char>) -> Seq<char> {
    if nao_achou {
        "nao achei o dsh em "@ + depurado(bin)
            + ". Defina TEKA_DSH_BIN (e TEKA_DSH_HOME) apontando para a instalacao do Harness. Ver ponte_harness/README.md"@
    } else {
        "nao subi a ponte: "@ + detalhe
    }
}

/// Por que a ponte não subiu: o programa não foi achado, ou outro erro.
pub fn erro_de_partida(nao_achou: bool, bin: &str, detalhe: &str) -> (r: String)
    ensures
        r@ == erro_de_partida_de(nao_achou, bin@, detalhe@),
{
    if nao_achou {
        let mut e = copiar("nao achei o dsh em ");
        let d = depurar(bin);
        acrescentar_str(&mut e, d.as_str());
        acrescentar_str(
            &mut e,
            ". Defina TEKA_DSH_BIN (e TEKA_DSH_HOME) apontando para a instalacao do Harness. Ver ponte_harness/README.md",
        );
        e
    } else {
        let mut e = copiar("nao subi a ponte: ");
        acrescentar_str(&mut e, detalhe);
        e
    }
}

/// O que fazer enquanto se espera a ponte recém-subida.
#[derive(Debug)]
pub enum Espera {
    /// Começou a atender.
    Pronta,
    /// O processo morreu na partida.
    Morreu(String),
    /// Passou do prazo.
    Esgotou(String),
    /// Dorme um pouco e olha de novo.
    Continua,
}

pub open spec fn morreu_de(home: Seq<char>) -> Seq<char> {
    "a ponte subiu e morreu na partida. Confira que o perfil `teka` existe em "@ + home
        + "/profiles/teka. Ver ponte_harness/README.md"@
}

pub open spec fn esgotou_de() -> Seq<char> {
    "a ponte nao comecou a atender em 20s"@
}

/// Uma olhada na espera: passado o prazo de [`PRAZO_SUBIDA_S`] segundos, acabou;
/// antes dele, atender vence, e depois o processo morto.
pub fn esperar(atendendo: bool, morreu: bool, passou_ms: u64, home: &str) -> (r: Espera)
    ensures
        passou_ms >= PRAZO_SUBIDA_S * 1000 ==> (r matches Espera::Esgotou(m) && m@ == esgotou_de()),
        passou_ms < PRAZO_SUBIDA_S * 1000 && atendendo ==> r is Pronta,
        passou_ms < PRAZO_SUBIDA_S * 1000 && !atendendo && morreu ==> (r matches Espera::Morreu(m) && m@ == morreu_de(home@)),
        passou_ms < PRAZO_SUBIDA_S * 1000 && !atendendo && !morreu ==> r is Continua,
{
    if passou_ms >= PRAZO_SUBIDA_S * 1000 {
        return Espera::Esgotou(copiar("a ponte nao comecou a atender em 20s"));
    }
    if atendendo {
        return Espera::Pronta;
    }
    if morreu {
        let mut m = copiar("a ponte subiu e morreu na partida. Confira que o perfil `teka` existe em ");
        acrescentar_str(&mut m, home);
        acrescentar_str(&mut m, "/profiles/teka. Ver ponte_harness/README.md");
        return Espera::Morreu(m);
    }
    Espera::Continua
}

/// Um dígito hexadecimal minúsculo.
pub open spec fn digito_hexa(d: nat) -> char {
    if d < 10 {
        (d + 48) as char
    } else {
        (d + 87) as char
    }
}

/// `format!("{n:x}")`.
pub open spec fn hexa(n: nat) -> Seq<char>
    decreases n,
{
    if n < 16 {
        seq![digito_hexa(n)]
    } else {
        hexa(n / 16).push(digito_hexa(n % 16))
    }
}

fn escrever_hexa(n: u128, out: &mut Vec<char>)
    ensures
        final(out)@ == old(out)@ + hexa(n as nat),
    decreases n,
{
    if n >= 16 {
        escrever_hexa(n / 16, out);
    }
    let d = n % 16;
    let c = if d < 10 {
        ((d as u8) + 48) as char
    } else {
        ((d as u8) + 87) as char
    };
    out.push(c);
    assert(final(out)@ =~= old(out)@ + hexa(n as nat));
}

/// O segredo de uma subida: o relógio, um endereço e o processo, em hexadecimal,
/// um atrás do outro.
pub fn segredo(relogio_ns: u128, endereco: u64, processo: u32) -> (r: String)
    ensures
        r@ == hexa(relogio_ns as nat) + hexa(endereco as nat) + hexa(processo as nat),
{
    let mut v: Vec<char> = Vec::new();
    escrever_hexa(relogio_ns, &mut v);
    escrever_hexa(endereco as u128, &mut v);
    escrever_hexa(processo as u128, &mut v);
    string_de(v.as_slice())
}

} // verus!
