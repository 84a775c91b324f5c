//! Uma área de trabalho separada, onde os processos dela nascem sem roubar a tela
//! de quem está usando o computador.
//!
//! Criar a área e lançar o processo é com o programa; aqui fica o que entra na
//! linha de comando e o que vale como nome de área.
use vstd::prelude::*;
use crate::texto::{acrescentar_str, caracteres, copiar, depurado, depurar, tem_char};

verus! {

/// Caracteres que não entram num argumento: `cmd` os interpreta mesmo entre aspas
/// (`%` expande `%VAR%` **depois** da citação).
pub open spec fn proibido_em_argumento(c: char) -> bool {
    c == '"' || c == '&' || c == '|' || c == '<' || c == '>' || c == '^' || c == '%' || c
        == '\n'
}

/// `{c:?}` para um dos caracteres proibidos.
pub open spec fn citado(c: char) -> Seq<char> {
    if c == '\n' {
        "'\\n'"@
    } else {
        seq!['\'', c, '\'']
    }
}

/// A posição do primeiro caractere proibido.
pub open spec fn primeiro_proibido_em(s: Seq<char>) -> Option<nat>
    decreases s.len(),
{
    if s.len() == 0 {
        None
    } else {
        match primeiro_proibido_em(s.drop_last()) {
            Some(i) => Some(i),
            None => if proibido_em_argumento(s.last()) {
                Some((s.len() - 1) as nat)
            } else {
                None
            },
        }
    }
}

proof fn lema_primeiro_proibido(s: Seq<char>)
    ensures
        match primeiro_proibido_em(s) {
            Some(i) => i < s.len() && proibido_em_argumento(s[i as int]) && forall|k: int|
                0 <= k < i ==> !proibido_em_argumento(s[k]),
            None => forall|k: int| 0 <= k < s.len() ==> !proibido_em_argumento(s[k]),
        },
    decreases s.len(),
{
    if s.len() > 0 {
        let w = s.drop_last();
        lema_primeiro_proibido(w);
        assert forall|k: int| 0 <= k < w.len() implies w[k] == s[k] by {}
        if primeiro_proibido_em(w) is None && !proibido_em_argumento(s.last()) {
            assert forall|k: int| 0 <= k < s.len() implies !proibido_em_argumento(s[k]) by {
                if k < w.len() {
                    assert(!proibido_em_argumento(w[k]));
                }
            }
        }
    }
}

/// Como [`citar`] trata um argumento.
pub open spec fn citacao(arg: Seq<char>) -> Result<Seq<char>, Seq<char>> {
    match primeiro_proibido_em(arg) {
        Some(i) => Err("caractere "@ + citado(arg[i as int]) + " nao pode entrar num argumento"@),
        None => if arg.len() > 0 && arg.last() == '\\' {
            Err("argumento nao pode terminar em contrabarra"@)
        } else if arg.len() == 0 || arg.contains(' ') {
            Ok(seq!['"'] + arg + seq!['"'])
        } else {
            Ok(arg)
        },
    }
}

/// Cita um argumento do jeito que o `CreateProcessW` espera: só quando precisa —
/// `cmd.exe` não reconhece `"/C"` com aspas. Como `"` está entre os proibidos, não
/// há aspa interna para escapar; a contrabarra final, que comeria a aspa de
/// fechamento, é recusada.
pub fn citar(arg: &str) -> (r: Result<String, String>)
    ensures
        match citacao(arg@) {
            Ok(t) => r matches Ok(x) && x@ == t,
            Err(e) => r matches Err(x) && x@ == e,
        },
{
    let a = caracteres(arg);
    proof {
        lema_primeiro_proibido(a@);
    }
    let mut i: usize = 0;
    while i < a.len()
        invariant
            i <= a@.len(),
            a@ == arg@,
            forall|k: int| 0 <= k < i ==> !proibido_em_argumento(a@[k]),
            match primeiro_proibido_em(a@) {
                Some(j) => j < a@.len() && proibido_em_argumento(a@[j as int]) && forall|k: int|
                    0 <= k < j ==> !proibido_em_argumento(a@[k]),
                None => forall|k: int| 0 <= k < a@.len() ==> !proibido_em_argumento(a@[k]),
            },
        decreases a.len() - i,
    {
        let c = a[i];
        if c == '"' || c == '&' || c == '|' || c == '<' || c == '>' || c == '^' || c == '%' || c
            == '\n' {
            let mut s = copiar("caractere ");
            if c == '\n' {
                acrescentar_str(&mut s, "'\\n'");
            } else {
                crate::texto::empurrar(&mut s, '\'');
                crate::texto::empurrar(&mut s, c);
                crate::texto::empurrar(&mut s, '\'');
            }
            acrescentar_str(&mut s, " nao pode entrar num argumento");
            assert(s@ =~= "caractere "@ + citado(c) + " nao pode entrar num argumento"@);
            return Err(s);
        }
        i = i + 1;
    }
    if a.len() > 0 && a[a.len() - 1] == '\\' {
        return Err(copiar("argumento nao pode terminar em contrabarra"));
    }
    if a.len() == 0 || tem_char(a.as_slice(), ' ') {
        let mut s = String::new();
        crate::texto::empurrar(&mut s, '"');
        acrescentar_str(&mut s, arg);
        crate::texto::empurrar(&mut s, '"');
        assert(s@ =~= seq!['"'] + arg@ + seq!['"']);
        Ok(s)
    } else {
        Ok(copiar(arg))
    }
}

/// O nome de uma área de trabalho não pode ser vazio nem ter contrabarra.
pub open spec fn nome_de_tela(nome: Seq<char>) -> Result<(), Seq<char>> {
    if nome.len() == 0 || nome.contains('\\') {
        Err("nome de tela invalido: "@ + depurado(nome))
    } else {
        Ok(())
    }
}

pub fn validar_nome_de_tela(nome: &str) -> (r: Result<(), String>)
    ensures
        match nome_de_tela(nome@) {
            Ok(()) => r is Ok,
            Err(e) => r matches Err(x) && x@ == e,
        },
{
    let a = caracteres(nome);
    if a.len() == 0 || tem_char(a.as_slice(), '\\') {
        let mut s = copiar("nome de tela invalido: ");
        let d = depurar(nome);
        acrescentar_str(&mut s, d.as_str());
        return Err(s);
    }
    Ok(())
}

} // verus!
