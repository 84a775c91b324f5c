use teka::cabecas::{slots_por_ferramenta, Placar, MAX_SLOTS};
use teka::registro::{Ferramenta, Param, Registro, TipoParam};
use teka::hierarquia::Config;

fn placar(k: usize) -> Placar {
    Placar {
        n: k,
        intencao_certa: k + 1,
        spans_certos: k + 2,
        spans_totais: k + 3,
        bytes_certos: k + 4,
        bytes_totais: k + 5,
        tudo_certo: k + 6,
        bytes_certos_com_int_ok: k + 7,
        bytes_totais_com_int_ok: k + 8,
    }
}

#[test]
fn somar_acumula_campo_a_campo() {
    let mut p = placar(10);
    p.somar(&placar(100));
    assert_eq!(p.n, 110);
    assert_eq!(p.intencao_certa, 112);
    assert_eq!(p.spans_certos, 114);
    assert_eq!(p.spans_totais, 116);
    assert_eq!(p.bytes_certos, 118);
    assert_eq!(p.bytes_totais, 120);
    assert_eq!(p.tudo_certo, 122);
    assert_eq!(p.bytes_certos_com_int_ok, 124);
    assert_eq!(p.bytes_totais_com_int_ok, 126);
}

#[test]
fn somar_o_zero_nao_muda_nada() {
    let mut p = placar(3);
    p.somar(&Placar::default());
    assert_eq!(p.n, 3);
    assert_eq!(p.bytes_totais_com_int_ok, 11);
    let z = Placar::default();
    assert_eq!(z.n + z.tudo_certo + z.bytes_totais, 0);
}

#[test]
fn as_tres_configuracoes() {
    let p = Config::padrao();
    assert_eq!((p.d_loc, p.h_loc, p.f_loc, p.n_enc, p.n_dec), (192, 192, 384, 2, 2));
    assert_eq!((p.d_bb, p.h_bb, p.f_bb, p.n_bb), (384, 384, 768, 6));
    let q = Config::pequeno();
    assert_eq!((q.d_loc, q.h_loc, q.f_loc, q.n_enc, q.n_dec), (96, 96, 192, 1, 1));
    assert_eq!((q.d_bb, q.h_bb, q.f_bb, q.n_bb), (192, 192, 384, 3));
    let m = Config::minusculo();
    assert_eq!((m.d_loc, m.h_loc, m.f_loc, m.n_enc, m.n_dec), (4, 4, 6, 1, 1));
    assert_eq!((m.d_bb, m.h_bb, m.f_bb, m.n_bb), (5, 5, 7, 1));
}

#[test]
fn os_slots_seguem_o_registro() {
    let reg = Registro::padrao();
    let s = slots_por_ferramenta(&reg);
    assert_eq!(s.len(), reg.ferramentas.len());
    for (f, (n, ob)) in reg.ferramentas.iter().zip(&s) {
        assert_eq!(*n, f.params.len().min(MAX_SLOTS), "{}", f.nome);
        assert_eq!(*ob, f.params.iter().filter(|p| p.obrigatorio).count().min(MAX_SLOTS), "{}", f.nome);
    }
    let i = reg.indice("mover_arquivo").expect("mover_arquivo");
    assert_eq!(s[i], (2, 2));
    let h = reg.indice("hora").expect("hora");
    assert_eq!(s[h], (0, 0));
}

#[test]
fn os_slots_param_no_teto() {
    let p = |n: &str, ob: bool| if ob { Param::obrigatorio(n, TipoParam::Texto) } else { Param::opcional(n, TipoParam::Texto) };
    let f = Ferramenta {
        nome: "muitos".to_string(),
        descricao: String::new(),
        params: vec![p("a", true), p("b", false), p("c", true), p("d", true), p("e", true), p("f", true)],
        prim: reg_prim(),
    };
    let reg = Registro { ferramentas: vec![f] };
    assert_eq!(slots_por_ferramenta(&reg), vec![(MAX_SLOTS, MAX_SLOTS)]);
}

fn reg_prim() -> teka::prim::Primitiva {
    Registro::padrao().ferramentas[0].prim.clone()
}
