use teka::teclado::{escolher, atalhos, campo_json, como_de, desconhecido, nomes, resposta_da_ponte, sequencia_de_teclas, Como};

#[test]
fn so_aceita_nome_da_lista() {
    assert!(como_de("proxima_musica").is_some());
    assert!(como_de("PROXIMA_MUSICA").is_some(), "deve ignorar caixa");
    assert!(como_de("  mudo  ").is_some(), "deve ignorar espaco");
    for fora in ["alt+f4", "ctrl+w", "delete", "", "formatar"] {
        assert!(como_de(fora).is_none(), "aceitou {fora:?}");
    }
}

#[test]
fn nenhum_controle_e_de_via_unica() {
    const FORA: [&str; 4] = ["Desconectar", "Compartilhar a tela", "Sair", "Encerrar"];
    for (nome, como) in atalhos() {
        if let Como::Controle { nome: ctl, .. } = como {
            assert!(!FORA.contains(&ctl), "{nome} aciona {ctl:?}, que nao se desfaz num clique");
        }
    }
}

#[test]
fn nenhum_atalho_e_destrutivo() {
    const PROIBIDAS: [u16; 4] = [0x2E, 0x73, 0x7B, 0x5B];
    for (nome, como) in atalhos() {
        let Como::Teclas(teclas) = como else { continue };
        for t in &teclas {
            assert!(!PROIBIDAS.contains(t), "{nome} usa uma tecla que nao e reversivel");
        }
        assert!(teclas.len() <= 3, "{nome}: atalho longo demais para ser obviamente reversivel");
    }
}

#[test]
fn o_erro_lista_o_que_ela_aceita() {
    let e = desconhecido("inventado");
    assert!(e.contains("proxima_musica"), "{e}");
    assert!(e.starts_with("nao conheco o atalho \"inventado\". conheco: proxima_musica, "));
    assert!(nomes().ends_with("tocar_faixa_na_tela, tocar_playlist"));
}

#[test]
fn solta_na_ordem_inversa() {
    assert_eq!(sequencia_de_teclas(&[0x11, 0x4D]), vec![(0x11, false), (0x4D, false), (0x4D, true), (0x11, true)]);
    assert!(sequencia_de_teclas(&[]).is_empty());
}

#[test]
fn campo_json_e_resposta_da_ponte() {
    assert_eq!(campo_json("{\"ok\":true,\"track\":\"A \\\"b\\\"\",\"id\":1}", "track"), Some("A \"b\"".into()));
    assert_eq!(campo_json("{\"ok\":true}", "track"), None);
    assert_eq!(campo_json("{\"track\":\"sem fim", "track"), None);
    assert_eq!(resposta_da_ponte("tocar_faixa", "{\"track\":\"Idea 22\"}").unwrap(), "tocar_faixa: Idea 22");
    assert_eq!(resposta_da_ponte("tocar_faixa", "{\"error\":\"sem player\"}").unwrap_err(), "sem player");
    assert_eq!(resposta_da_ponte("x", "{}").unwrap(), "x: {}");
}

#[test]
fn o_erro_diz_o_que_ela_aceita() {
    let e = escolher("inventado").unwrap_err();
    assert!(e.contains("proxima_musica"), "{e}");
}

#[test]
fn o_nome_conhecido_escolhe_o_jeito_de_agir() {
    assert!(escolher(" PROXIMA_MUSICA ").is_ok());
    assert_eq!(
        escolher("inventado").unwrap_err(),
        format!("nao conheco o atalho \"inventado\". conheco: {}", teka::teclado::nomes())
    );
}
