//! Teka: regras, guardas e formatos de um agente que age com ferramentas.
use vstd::prelude::*;

pub mod texto;
pub mod caminho;
pub mod seguranca;
pub mod diario;
pub mod prim;
pub mod registro;
pub mod oficina;
pub mod execucao;
pub mod regras;
pub mod teclado;
pub mod uia;
pub mod tela;
pub mod ponte;
pub mod busca;
pub mod agente;
pub mod rng;
pub mod servidor;
pub mod patcher;
pub mod hierarquia;
pub mod cabecas;
pub mod gatilhos;
pub mod cerebro;
pub mod safetensors;
pub mod pulso;
pub mod ponte_auto;
pub mod ngrama;

verus! {

} // verus!
