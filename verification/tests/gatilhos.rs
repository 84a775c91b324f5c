use teka::gatilhos::{casar_em, ler, normalizar, pontuacao, Entrada};

const TABELA: &str = "\
# atalho | gatilhos separados por virgula
proxima_musica | pula essa musica, proxima faixa
tocar_faixa* | toca, poe pra tocar
tocar_playlist* | toca a playlist
mutar_discord | me muta, muta o discord, muta meu microfone
sem_gatilho |  , ,
linha sem barra
";

fn tabela() -> Vec<Entrada> {
    ler(TABELA)
}

#[test]
fn normaliza_como_a_nyxara() {
    assert_eq!(normalizar("Pula ESSA Música!"), "pula essa musica");
    assert_eq!(normalizar("Cansaço  do   Alec"), "cansaco do alec");
    assert_eq!(normalizar("  ção, ão; ê  "), "cao ao e");
}

#[test]
fn a_tabela_e_lida_linha_a_linha() {
    let t = tabela();
    assert_eq!(t.len(), 4);
    assert_eq!(t[0].atalho, "proxima_musica");
    assert_eq!(t[0].gatilhos, vec!["pula essa musica", "proxima faixa"]);
    assert!(!t[0].com_alvo);
    assert_eq!(t[1].atalho, "tocar_faixa");
    assert!(t[1].com_alvo);
    assert_eq!(t[3].gatilhos.len(), 3);
}

#[test]
fn os_tres_niveis_pontuam_como_esperado() {
    let p = |g: &str, t: &str| {
        let x = pontuacao(g, t, &normalizar(t));
        (x.num, x.den)
    };
    assert_eq!(p("pula essa musica", "pula essa musica"), (1, 1), "literal");
    assert_eq!(p("pula essa musica", "Pula essa MÚSICA"), (19, 20), "normalizado");
    // Cobertura: 2 de 3 palavras fortes, acima do piso de 66%.
    assert_eq!(p("pula essa musica", "pula a musica ai"), (2, 3));
    assert_eq!(p("pula essa musica", "que horas sao"), (0, 1));
    // Cobertura completa fica em 9/10, abaixo do nível normalizado.
    assert_eq!(p("muta o discord", "muta o theo no discord"), (9, 10));
    // Uma palavra forte só não casa por cobertura.
    assert_eq!(p("toca", "seria bom uma radio tocando"), (0, 1));
    assert_eq!(p("   ", "qualquer coisa"), (0, 1));
}

#[test]
fn o_gatilho_mais_longo_vence_e_o_alvo_e_a_sobra() {
    let t = tabela();
    let (a, alvo) = casar_em(&t, "toca deslocado do napa").unwrap();
    assert_eq!(a, "tocar_faixa");
    assert_eq!(alvo.as_deref(), Some("deslocado do napa"));

    let (a, alvo) = casar_em(&t, "toca a playlist animada").unwrap();
    assert_eq!(a, "tocar_playlist");
    assert_eq!(alvo.as_deref(), Some("animada"));

    let (a, alvo) = casar_em(&t, "pula essa musica").unwrap();
    assert_eq!(a, "proxima_musica");
    assert_eq!(alvo, None);
}

#[test]
fn pedaco_de_palavra_nao_casa() {
    let t = tabela();
    for fora in ["seria bom uma radio tocando", "quem e o tocador de violao"] {
        assert!(casar_em(&t, fora).is_none(), "{fora:?}");
    }
    let (a, alvo) = casar_em(&t, "poe um som pra tocar").unwrap();
    assert_eq!(a, "tocar_faixa");
    assert_eq!(alvo.as_deref(), Some("um som"));
}

#[test]
fn sem_alvo_nao_engole_outra_pessoa() {
    let t = tabela();
    assert_eq!(casar_em(&t, "muta o theo no discord"), None);
    assert_eq!(
        casar_em(&t, "me muta").map(|(a, _)| a),
        Some("mutar_discord".to_string())
    );
    assert_eq!(
        casar_em(&t, "pula essa musica ai").map(|(a, _)| a),
        Some("proxima_musica".to_string())
    );
}

#[test]
fn a_sobra_tira_o_gatilho_do_meio_da_frase() {
    let t = tabela();
    let (a, alvo) = casar_em(&t, "agora toca deslocado").unwrap();
    assert_eq!(a, "tocar_faixa");
    assert_eq!(alvo.as_deref(), Some("agora deslocado"));
}

#[test]
fn conversa_nao_vira_atalho() {
    let t = tabela();
    for fora in ["que horas sao", "oi tudo bem", "lista os arquivos da pasta dados"] {
        assert_eq!(casar_em(&t, fora), None, "{fora:?}");
    }
}
