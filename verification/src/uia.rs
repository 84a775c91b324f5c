//! Controles nomeados dentro de aplicativos, via UIAutomation.
//!
//! Falar com a árvore de automação do Windows é com o programa; aqui ficam as
//! regras: o que se lê do estado de um controle, e o que a Teka nunca aciona
//! sozinha por um casamento aproximado de nome.
use vstd::prelude::*;
use crate::texto::{caracteres, caracteres_de, contem, contem_exec, minusculas, para_minusculas};

verus! {

/// O nome do estado de um controle de dois estados: 0 desligado, 1 ligado, o resto
/// indefinido — o vocabulário do `ToggleState`.
pub open spec fn rotulo_de(estado: i32) -> Seq<char> {
    if estado == 0 {
        "desligado"@
    } else if estado == 1 {
        "ligado"@
    } else {
        "indefinido"@
    }
}

pub fn rotulo(estado: i32) -> (r: &'static str)
    ensures
        r@ == rotulo_de(estado),
{
    match estado {
        0 => "desligado",
        1 => "ligado",
        _ => "indefinido",
    }
}

/// Atos sobre outra pessoa, ou sem volta. Não é "a Teka não pode": é "a Teka não faz
/// isto calada". Ato sobre outra pessoa se pede explicitamente.
pub open spec fn nunca_sozinha() -> Seq<Seq<char>> {
    seq![
        "no servidor"@,
        "desconectar"@,
        "expulsar"@,
        "banir"@,
        "acoes de servidor"@,
        "ações de servidor"@,
    ]
}

pub fn lista_nunca_sozinha() -> (r: Vec<&'static str>)
    ensures
        r@.map_values(|s: &'static str| s@) == nunca_sozinha(),
{
    let v = vec!["no servidor", "desconectar", "expulsar", "banir", "acoes de servidor", "ações de servidor"];
    assert(v@.map_values(|s: &'static str| s@) =~= nunca_sozinha());
    v
}

/// Este nome é proibido de acionar? Em minúsculas, contém algum dos atos de
/// [`nunca_sozinha`].
pub fn proibido(nome: &str) -> (r: bool)
    ensures
        r == exists|i: int| 0 <= i < nunca_sozinha().len() && contem(minusculas(nome@), nunca_sozinha()[i]),
{
    let n = para_minusculas(nome);
    let nv = caracteres_de(&n);
    let l = lista_nunca_sozinha();
    let mut i: usize = 0;
    while i < l.len()
        invariant
            i <= l@.len(),
            nv@ == minusculas(nome@),
            l@.map_values(|s: &'static str| s@) == nunca_sozinha(),
            forall|k: int| 0 <= k < i ==> !contem(nv@, nunca_sozinha()[k]),
        decreases l.len() - i,
    {
        let p = caracteres(l[i]);
        assert(nunca_sozinha()[i as int] == l@[i as int]@);
        if contem_exec(nv.as_slice(), p.as_slice()) {
            return true;
        }
        i = i + 1;
    }
    false
}

} // verus!
