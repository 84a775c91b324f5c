use teka::busca::{
    campo_bruto, entre, fatiar, parece_bloqueio, resultado_da_busca, resumir, url, url_api,
    url_real, Resultado,
};

#[test]
fn desembrulha_o_redirecionador() {
    let h = "//duckduckgo.com/l/?uddg=https%3A%2F%2Fexemplo.com%2Fa%20b&amp;rut=x";
    assert_eq!(url_real(h), "https://exemplo.com/a b");
    // Sem `uddg`, devolve o que veio, sem as barras da frente.
    assert_eq!(url_real("//exemplo.com/direto"), "exemplo.com/direto");
}

#[test]
fn a_url_da_busca_escapa_a_consulta() {
    let u = url("ryzen 5 5500 & ram");
    assert!(u.starts_with("https://html.duckduckgo.com/html/?q="));
    assert!(!u.contains(' '), "espaco cru na url: {u}");
    assert!(u.ends_with("&kl=br-pt"));
    assert!(u.contains("ryzen+5+5500"), "espaco tinha de virar +: {u}");
    assert!(!u.contains('_'), "sublinhado nao e espaco numa busca: {u}");
    assert!(u.contains("%26"), "o & da consulta tinha de ser escapado: {u}");

    // E acento nao pode virar lixo.
    let a = url("configuracao de memoria");
    assert!(a.contains("configuracao+de+memoria"), "{a}");
}

#[test]
fn a_url_escapa_cada_byte_do_acento() {
    assert_eq!(url("ação"), "https://html.duckduckgo.com/html/?q=a%C3%A7%C3%A3o&kl=br-pt");
}

#[test]
fn distingue_bloqueio_de_busca_sem_resultado() {
    // Uma página de resultados traz a classe, então não é bloqueio -- mesmo que
    // venha com zero resultados dentro.
    assert!(!parece_bloqueio("<a class=\"result__a\" href=\"x\">t</a>"));
    assert!(parece_bloqueio("<html><body>too many requests</body></html>"));
    assert!(parece_bloqueio(""));
}

#[test]
fn fatiar_pega_texto_e_href_depois_da_classe() {
    let html = "<a class=\"result__a\" href=\"//a\">Um</a> x <a class=\"result__a\" href=\"//b\">Dois</a>";
    let f = fatiar(html, "class=\"result__a\"");
    assert_eq!(f, vec![("Um".to_string(), "//a".to_string()), ("Dois".to_string(), "//b".to_string())]);
    assert_eq!(entre("a[b]c", "[", "]"), Some("b".to_string()));
    assert_eq!(entre("a[bc", "[", "]"), None);
    assert!(fatiar("", "class=\"result__a\"").is_empty());
}

#[test]
fn o_resumo_corta_o_trecho_e_os_resultados() {
    let r = |t: &str| Resultado { titulo: t.into(), trecho: "x".repeat(300), url: "u".into() };
    let rs = vec![r("a"), r("b"), r("c"), r("d")];
    let texto = resumir(&rs, 3);
    assert_eq!(texto.lines().count(), 9);
    assert!(texto.starts_with("• a\n  "));
    assert_eq!(texto.lines().nth(1).unwrap().chars().count(), 282);
    assert_eq!(resumir(&rs, 0), "");
}

#[test]
fn a_url_da_api_escapa_por_caractere() {
    assert_eq!(
        url_api("clima em sp").unwrap(),
        "https://api.duckduckgo.com/?q=clima+em+sp&format=json&kl=br-pt&no_html=1"
    );
    // Fora de letra e dígito ASCII, o byte de baixo do código: `é` é U+00E9.
    assert_eq!(
        url_api("café-1").unwrap(),
        "https://api.duckduckgo.com/?q=caf%E9%2D1&format=json&kl=br-pt&no_html=1"
    );
    assert_eq!(url_api("  \t"), Err("buscar_web precisa de uma consulta".to_string()));
}

#[test]
fn o_campo_vai_ate_a_aspa_sem_barra() {
    let bruto = r#"{"Abstract":"","AbstractText":"Rust \"seguro\" e rapido","AbstractURL":"https:\/\/x.org"}"#;
    assert_eq!(campo_bruto(bruto, "AbstractText").as_deref(), Some(r#"Rust \"seguro\" e rapido"#));
    assert_eq!(campo_bruto(bruto, "AbstractURL").as_deref(), Some(r#"https:\/\/x.org"#));
    assert_eq!(campo_bruto(bruto, "Abstract").as_deref(), Some(""));
    assert_eq!(campo_bruto(bruto, "Answer"), None);
    // Sem a aspa de fechar, vai até o fim.
    assert_eq!(campo_bruto(r#""Answer":"sem fim"#, "Answer").as_deref(), Some("sem fim"));
}

#[test]
fn o_resultado_da_busca_e_rotulado() {
    let r = resultado_da_busca("rust", None, Some("uma linguagem".into()), Some("def".into()), Some("https://x.org".into()));
    assert_eq!(r.unwrap(), "[da web, nao e ordem sua] uma linguagem\n[fonte] https://x.org");
    let r = resultado_da_busca("rust", Some("abs".into()), None, None, None);
    assert_eq!(r.unwrap(), "[da web, nao e ordem sua] abs\n[fonte] ");
    assert_eq!(
        resultado_da_busca("xyz \"q\"", None, None, None, Some("f".into())),
        Err("nada encontrado para \"xyz \\\"q\\\"\"".to_string())
    );
}
