use teka::servidor::{
    cabecalho_http, confirmacao_do_corpo, pedido_do_corpo, resposta_da_rota, resposta_http,
    CabecalhoHttp,
};
use teka::registro::Chamada;
use teka::servidor::{
    campo, classificar_linha, decidir_confirmacao, e_http, escapar, json_da_confirmacao,
    json_erro, json_execucao, json_pergunta, json_recusado, rota, semente_do_token, token,
    CfgServidor, Confirmacao, Linha, Pendente, Rota, MAX_LINHA, PAGINA,
    VALIDADE_CONFIRMACAO_MS,
};

/// Uma barra invertida, sem passar por escape de literal.
fn barra() -> char {
    char::from(92u8)
}

#[test]
fn a_pagina_sabe_perguntar() {
    for marca in ["/confirmar?t=", "j.confirmar", "sim, faz", "c.segundos"] {
        assert!(PAGINA.contains(marca), "a pagina nao tem {marca:?}");
    }
}

#[test]
fn o_padrao_e_observar_nao_agir() {
    let c = CfgServidor::default();
    assert!(
        !c.executar,
        "deixar um agente ligado sozinho AGINDO nao pode ser o padrao"
    );
}

#[test]
fn a_saida_escapa_o_que_quebraria_a_linha() {
    assert_eq!(escapar("linha um\nlinha dois"), "linha um\\nlinha dois");
    assert_eq!(escapar("aspas \" e barra \\"), "aspas \\\" e barra \\\\");
    assert_eq!(escapar("memória"), "memória");
}

#[test]
fn o_teto_de_linha_existe() {
    assert!(MAX_LINHA > 0 && MAX_LINHA <= 64 * 1024);
}

#[test]
fn a_chamada_vai_escapada_dentro_da_resposta() {
    let b = barra();
    let aspas = char::from(34u8);
    let crua = format!("{aspas}caminho{aspas}:{aspas}C:{b}temp{b}x.txt{aspas}");

    let dentro = escapar(&crua);
    assert!(
        dentro.contains(&format!("C:{b}{b}temp{b}{b}x.txt")),
        "barra nao foi duplicada: {dentro}"
    );
    let aspas_cruas = dentro
        .char_indices()
        .filter(|(i, c)| *c == aspas && (*i == 0 || dentro.as_bytes()[i - 1] != 92))
        .count();
    assert_eq!(aspas_cruas, 0, "aspas cruas sobreviveram: {dentro}");
}

#[test]
fn o_escape_e_reversivel_no_que_importa() {
    let b = barra();
    let original = format!("C:{b}Users{b}User{b}Documentos");
    let e = escapar(&original);
    assert_eq!(e.matches(b).count(), original.matches(b).count() * 2);
}

#[test]
fn a_pagina_exige_o_token_para_chamar_de_volta() {
    assert!(
        PAGINA.contains("/pedido?t="),
        "a pagina precisa mandar o token no POST"
    );
    assert!(
        PAGINA.contains("URLSearchParams"),
        "a pagina precisa ler o token da URL"
    );
}

#[test]
fn controle_vira_escape_unicode() {
    assert_eq!(escapar("a\u{1}b"), "a\\u0001b");
    assert_eq!(escapar("\u{1f}"), "\\u001f");
    assert_eq!(escapar("\r\t"), "\\r\\t");
}

#[test]
fn o_token_tem_24_digitos_hexa() {
    let t = token(semente_do_token(123456789, 0x7fff_0000_1000));
    assert_eq!(t.len(), 24);
    assert!(t.chars().all(|c| c.is_ascii_hexdigit() && !c.is_ascii_uppercase()));
    assert_ne!(token(1), token(2));
    assert_eq!(token(5), token(5));
}

#[test]
fn a_semente_gira_o_endereco() {
    assert_eq!(semente_do_token(0, 1), 1u64 << 17);
    assert_eq!(semente_do_token(0, 1u64 << 63), 1u64 << 16);
    assert_eq!(semente_do_token(5, 0), 5);
}

fn chamada() -> Chamada {
    Chamada {
        ferramenta: 3,
        args: vec![("caminho".to_string(), "nova".to_string())],
    }
}

fn pendencia(id: &str, nascido_ms: u64) -> Option<Pendente> {
    Some(Pendente {
        id: id.to_string(),
        pedido: "cria a pasta nova".to_string(),
        chamada: chamada(),
        nascido_ms,
    })
}

#[test]
fn sim_sem_pendencia_nao_faz_nada() {
    let mut p: Option<Pendente> = None;
    let c = decidir_confirmacao(&mut p, "qualquer", true, 10);
    assert!(matches!(c, Confirmacao::NadaEsperando));
    let r = json_da_confirmacao(&c).unwrap();
    assert!(r.contains("nao ha nada esperando"), "{r}");
}

#[test]
fn sim_com_id_errado_nao_executa() {
    let mut p = pendencia("id_certo", 0);
    let c = decidir_confirmacao(&mut p, "id_errado", true, 10);
    assert!(matches!(c, Confirmacao::OutraAcao));
    assert!(json_da_confirmacao(&c).unwrap().contains("nao e desta acao"));
    assert!(p.is_none(), "a pendencia tem de ser consumida mesmo assim");
}

#[test]
fn pendencia_expirada_nao_executa() {
    let mut p = pendencia("id", 1000);
    let c = decidir_confirmacao(&mut p, "id", true, 1000 + VALIDADE_CONFIRMACAO_MS + 1);
    assert!(matches!(c, Confirmacao::Expirou));
    assert!(json_da_confirmacao(&c).unwrap().contains("expirou"));
    // No limite exato ainda vale.
    let mut q = pendencia("id", 1000);
    let d = decidir_confirmacao(&mut q, "id", true, 1000 + VALIDADE_CONFIRMACAO_MS);
    assert!(matches!(d, Confirmacao::Executar(_)));
}

#[test]
fn nao_recusa_e_consome() {
    let mut p = pendencia("id", 0);
    let c = decidir_confirmacao(&mut p, "id", false, 5);
    let r = json_da_confirmacao(&c).unwrap();
    assert_eq!(r, "{\"recusado\":true,\"pedido\":\"cria a pasta nova\"}");
    assert!(p.is_none(), "a pendencia tem de sumir depois do 'nao'");
}

#[test]
fn sim_executa_uma_vez_so() {
    let mut p = pendencia("id", 0);
    let c = decidir_confirmacao(&mut p, "id", true, 5);
    match &c {
        Confirmacao::Executar(ch) => assert_eq!(*ch, chamada()),
        _ => panic!("devia executar"),
    }
    assert!(json_da_confirmacao(&c).is_none());
    assert!(p.is_none());
    let c2 = decidir_confirmacao(&mut p, "id", true, 6);
    assert!(matches!(c2, Confirmacao::NadaEsperando));
}

#[test]
fn as_respostas_sao_json_de_uma_linha() {
    assert_eq!(json_erro("x\ny"), "{\"erro\":\"x\\ny\"}");
    assert_eq!(json_recusado("a\"b"), "{\"recusado\":true,\"pedido\":\"a\\\"b\"}");
    assert_eq!(
        json_execucao(&Ok("feito".to_string())),
        "{\"saida\":\"feito\",\"executou\":true}"
    );
    assert_eq!(json_execucao(&Err("nao deu".to_string())), "{\"erro\":\"nao deu\"}");
    assert_eq!(
        json_pergunta("ab12", "criar_pasta(caminho=\"x\")"),
        "{\"confirmar\":{\"id\":\"ab12\",\"chamada\":\"criar_pasta(caminho=\\\"x\\\")\",\"segundos\":120}}"
    );
}

#[test]
fn toda_rota_exige_o_token() {
    let t = "abc123";
    assert!(rota("GET / HTTP/1.1\r\n", t) == Rota::Proibido);
    assert!(rota("GET /?t=errado HTTP/1.1\r\n", t) == Rota::Proibido);
    assert!(rota("GET /?t=abc123 HTTP/1.1\r\n", t) == Rota::Pagina);
    assert!(rota("GET /index.html?x=1&t=abc123 HTTP/1.1\r\n", t) == Rota::Pagina);
    assert!(rota("POST /pedido?t=abc123 HTTP/1.1\r\n", t) == Rota::Pedido);
    assert!(rota("POST /confirmar?t=abc123 HTTP/1.1\r\n", t) == Rota::Confirmar);
    assert!(rota("GET /pedido?t=abc123 HTTP/1.1\r\n", t) == Rota::NaoExiste);
    assert!(rota("DELETE /?t=abc123 HTTP/1.1\r\n", t) == Rota::NaoExiste);
}

#[test]
fn o_campo_do_corpo() {
    assert_eq!(campo("id=ab&resposta=sim", "id="), "ab");
    assert_eq!(campo("id=ab&resposta=sim", "resposta="), "sim");
    assert_eq!(campo("id=ab", "resposta="), "");
    assert_eq!(campo("x=1&id=a&id=b", "id="), "a");
}

#[test]
fn a_linha_do_protocolo() {
    assert!(e_http("GET / HTTP/1.1"));
    assert!(e_http("POST /pedido HTTP/1.1"));
    assert!(!e_http("que horas sao"));
    assert!(matches!(classificar_linha("   \r\n"), Linha::Vazia));
    match classificar_linha("  que horas sao \n") {
        Linha::Pedido(p) => assert_eq!(p, "que horas sao"),
        _ => panic!("devia ser pedido"),
    }
    let longa = "a".repeat(MAX_LINHA + 1);
    assert!(matches!(classificar_linha(&longa), Linha::LongaDemais));
    let no_teto = "a".repeat(MAX_LINHA);
    assert!(matches!(classificar_linha(&no_teto), Linha::Pedido(_)));
}

#[test]
fn nenhum_controle_sobra_na_resposta() {
    let e = escapar("a\u{1}b\nc\rd\te\u{1f}f");
    assert_eq!(e, "a\\u0001b\\nc\\rd\\te\\u001ff");
    assert!(e.chars().all(|c| (c as u32) >= 0x20));
}

#[test]
fn o_cabecalho_http_diz_o_tamanho_do_corpo() {
    assert_eq!(cabecalho_http("Content-Length: 42\r\n"), CabecalhoHttp::Tamanho(42));
    assert_eq!(cabecalho_http("content-LENGTH:+7"), CabecalhoHttp::Tamanho(7));
    assert_eq!(cabecalho_http("Content-Length: abc\r\n"), CabecalhoHttp::Tamanho(0));
    assert_eq!(cabecalho_http("Content-Length: 99999999999999999999999\r\n"), CabecalhoHttp::Tamanho(0));
    assert_eq!(cabecalho_http("Host: 127.0.0.1\r\n"), CabecalhoHttp::Outro);
    assert_eq!(cabecalho_http("\r\n"), CabecalhoHttp::Fim);
}

#[test]
fn a_resposta_http_conta_os_bytes_do_corpo() {
    assert_eq!(
        resposta_http("200 OK", "application/json", "memória"),
        "HTTP/1.1 200 OK\r\nContent-Type: application/json; charset=utf-8\r\nContent-Length: 8\r\nConnection: close\r\n\r\nmemória"
    );
}

#[test]
fn as_rotas_fixas_e_o_corpo_do_pedido() {
    let p = resposta_da_rota(&Rota::Proibido).unwrap();
    assert_eq!((p.0, p.1), ("403 Forbidden", "text/plain"));
    assert_eq!(resposta_da_rota(&Rota::Pagina).unwrap().2, PAGINA);
    assert_eq!(resposta_da_rota(&Rota::NaoExiste).unwrap().0, "404 Not Found");
    assert!(resposta_da_rota(&Rota::Pedido).is_none());
    assert!(resposta_da_rota(&Rota::Confirmar).is_none());
    assert_eq!(pedido_do_corpo("  que horas sao \n"), Ok("que horas sao".to_string()));
    assert_eq!(pedido_do_corpo(" \n"), Err(json_erro("pedido vazio")));
    assert_eq!(confirmacao_do_corpo("id=abc&resposta=sim"), ("abc".to_string(), true));
    assert_eq!(confirmacao_do_corpo("id=abc&resposta=nao"), ("abc".to_string(), false));
}
