use teka::ponte_auto::{
    com_ponte_alheia, do_ambiente, erro_de_partida, esperar, segredo, segredo_guardado, Espera,
    ARQUIVO_DO_SEGREDO, PRAZO_SUBIDA_S,
};

#[test]
fn token_do_ambiente_vence_quando_nao_vazio() {
    assert_eq!(do_ambiente(Some("segredo-do-john")).as_deref(), Some("segredo-do-john"));
    assert_eq!(do_ambiente(Some("")), None);
    assert_eq!(do_ambiente(None), None);
}

#[test]
fn o_segredo_guardado_vem_sem_as_pontas() {
    assert_eq!(segredo_guardado("  abc123\n").as_deref(), Some("abc123"));
    assert_eq!(segredo_guardado(" \n\t "), None);
    assert_eq!(segredo_guardado(""), None);
}

#[test]
fn ponte_alheia_so_serve_se_o_segredo_abre() {
    assert_eq!(
        com_ponte_alheia("127.0.0.1:8768", Some("xyz".to_string()), true),
        Ok("xyz".to_string())
    );
    let e = com_ponte_alheia("127.0.0.1:8768", Some("xyz".to_string()), false).unwrap_err();
    assert!(e.starts_with("ja ha uma ponte atendendo em 127.0.0.1:8768 e o segredo"), "{e}");
    assert!(e.contains("TEKA_PONTE_TOKEN"));
    let e2 = com_ponte_alheia("127.0.0.1:8768", None, true).unwrap_err();
    assert_eq!(e, e2);
}

#[test]
fn o_erro_de_partida_diz_onde_procurou() {
    let e = erro_de_partida(true, "C:\\dsh.CMD", "");
    assert!(e.starts_with("nao achei o dsh em \"C:\\\\dsh.CMD\". Defina TEKA_DSH_BIN"), "{e}");
    assert_eq!(erro_de_partida(false, "x", "acesso negado"), "nao subi a ponte: acesso negado");
}

#[test]
fn a_espera_respeita_a_ordem() {
    assert!(matches!(esperar(true, true, 500, "h"), Espera::Pronta));
    assert!(matches!(esperar(true, false, 99_000, "h"), Espera::Esgotou(_)));
    match esperar(false, true, 500, "casa") {
        Espera::Morreu(m) => assert!(m.contains("existe em casa/profiles/teka"), "{m}"),
        outro => panic!("esperava Morreu, veio {outro:?}"),
    }
    match esperar(false, true, PRAZO_SUBIDA_S * 1000, "casa") {
        Espera::Esgotou(m) => assert_eq!(m, "a ponte nao comecou a atender em 20s"),
        outro => panic!("esperava Esgotou, veio {outro:?}"),
    }
    assert!(matches!(esperar(false, false, 19_999, "casa"), Espera::Continua));
}

#[test]
fn o_segredo_e_hexadecimal_de_tres_partes() {
    assert_eq!(segredo(0x1a2b, 0xff, 10), "1a2bffa");
    assert_eq!(segredo(0, 0, 0), "000");
    let a = segredo(1_700_000_000_000_000_000, 0x7ff0_1234, 4321);
    let b = segredo(1_700_000_000_000_000_001, 0x7ff0_1234, 4321);
    assert_ne!(a, b);
    assert!(a.len() >= 16, "segredo curto demais: {a:?}");
    assert!(a.chars().all(|c| c.is_ascii_hexdigit() && !c.is_ascii_uppercase()));
}

#[test]
fn o_arquivo_do_segredo_tem_nome_fixo() {
    assert_eq!(ARQUIVO_DO_SEGREDO, ".teka-ponte-token");
}
