use teka::regras::{ler, tabela, Condicao, Passo, Regras, Vigia, ESPACO_MS, TETO_SEGUIDO};
use teka::teclado::como_de;

fn t0() -> u64 {
    1_000_000
}

#[test]
fn toda_acao_e_um_atalho_que_existe() {
    for r in tabela() {
        assert!(como_de(&r.acao).is_some(), "a regra {:?} aciona {:?}, que nao existe", r.nome, r.acao);
    }
}

#[test]
fn parou_sozinha_e_ela_retoma() {
    let mut v = Vigia::default();
    let t = t0();
    assert_eq!(v.olhar(false, t), Passo::Age);
}

#[test]
fn o_dono_pede_pausa_e_ela_obedece() {
    let mut v = Vigia::default();
    let t = t0();
    assert_eq!(v.olhar(true, t), Passo::Quieto, "tocando, nada a fazer");
    v.dono_pausou();
    let t2 = t + 30_000;
    assert_eq!(v.olhar(false, t2), Passo::Suspensa);
    assert_eq!(v.olhar(false, t2 + 5_000), Passo::Suspensa);
}

#[test]
fn dar_play_de_novo_reativa_a_regra() {
    let mut v = Vigia::default();
    let t = t0();
    v.olhar(true, t);
    v.dono_pausou();
    assert_eq!(v.olhar(false, t + 30_000), Passo::Suspensa);
    assert_eq!(v.olhar(true, t + 60_000), Passo::Quieto);
    assert_eq!(v.olhar(false, t + 90_000), Passo::Age);
}

#[test]
fn parou_no_meio_e_ela_retoma() {
    let mut v = Vigia::default();
    let t = t0();
    assert_eq!(v.olhar(true, t), Passo::Quieto);
    assert_eq!(v.olhar(false, t + 30_000), Passo::Age, "o Discord parou a musica; ela tem de retomar");
}

#[test]
fn pausa_pedida_a_ela_tambem_suspende() {
    let mut v = Vigia::default();
    let t = t0();
    v.olhar(true, t);
    v.dono_pausou();
    assert_eq!(v.olhar(false, t + 1_000), Passo::Suspensa);
}

#[test]
fn desiste_depois_do_teto() {
    let mut v = Vigia::default();
    let mut t = t0();
    for i in 0..TETO_SEGUIDO {
        assert_eq!(v.olhar(false, t), Passo::Age, "disparo {i}");
        t += ESPACO_MS + 1_000;
    }
    assert_eq!(v.olhar(false, t), Passo::Desistiu);
    assert_eq!(v.olhar(false, t + 60_000), Passo::Desistiu);
}

#[test]
fn nao_repete_antes_do_app_obedecer() {
    let mut v = Vigia::default();
    let t = t0();
    assert_eq!(v.olhar(false, t), Passo::Age);
    assert_eq!(v.olhar(false, t + 500), Passo::Quieto, "repetir antes do app reagir vira metralhadora");
}

#[test]
fn le_a_tabela() {
    let r = tabela();
    assert_eq!(r.len(), 1);
    assert_eq!(r[0].nome, "retomar_musica");
    assert_eq!(r[0].condicao, Condicao::MusicaParada);
    assert_eq!(r[0].acao, "alternar_musica");
    assert!(!r[0].ligada);
}

#[test]
fn ler_pula_comentario_e_linha_curta_e_entende_sim() {
    let r = ler("# x\n\n a | musica_parada | b | SIM \nc|outra|d\ne|f\n g | musica_parada | h\r\n");
    assert_eq!(r.len(), 2);
    assert_eq!((r[0].nome.as_str(), r[0].acao.as_str(), r[0].ligada), ("a", "b", true));
    assert_eq!((r[1].nome.as_str(), r[1].acao.as_str(), r[1].ligada), ("g", "h", false));
}

#[test]
fn ligar_e_desligar_pelo_nome() {
    let mut rs = Regras::novas(tabela());
    assert!(rs.ativas().is_empty());
    assert!(!rs.ligar("inventada"));
    assert!(rs.ligar("retomar_musica"));
    assert!(rs.esta_ligada("retomar_musica"));
    assert_eq!(rs.ativas().len(), 1);
    assert!(rs.ligar("retomar_musica"));
    assert!(rs.desligar("retomar_musica"));
    assert!(!rs.desligar("retomar_musica"));
    assert!(!rs.esta_ligada("retomar_musica"));
}

#[test]
fn ligar_comeca_com_o_vigia_limpo() {
    let mut rs = Regras::novas(tabela());
    rs.ligar("retomar_musica");
    rs.dono_pausou();
    assert_eq!(rs.olhar(false, t0()), Passo::Suspensa);
    rs.ligar("retomar_musica");
    assert_eq!(rs.olhar(false, t0()), Passo::Age);
}
