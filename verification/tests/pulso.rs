use teka::pulso::{
    escapar_pulso, esta_tocando, reancora, regra_a_vigiar, relato, semente, Pulso, CAUDA_FIO, IDADE_MAXIMA_FIO,
};
use teka::regras::{tabela, Passo, Regras};

#[test]
fn sem_regra_ligada_o_vigia_nao_faz_nada() {
    let ligadas = tabela().iter().filter(|r| r.ligada).count();
    assert_eq!(ligadas, 0, "o padrao do repositorio tem de vir DESLIGADO");

    let regras = Regras::novas(tabela());
    let t0 = std::time::Instant::now();
    assert!(regra_a_vigiar(&regras).is_none());
    assert!(
        t0.elapsed() < std::time::Duration::from_millis(200),
        "demorou {:?} — sinal de que foi falar com a ponte a toa",
        t0.elapsed()
    );
}

#[test]
fn com_regra_ligada_o_vigia_olha_a_primeira() {
    let mut regras = Regras::novas(tabela());
    assert!(regras.ligar("retomar_musica"));
    let r = regra_a_vigiar(&regras).unwrap();
    assert_eq!(r.nome, "retomar_musica");
    assert_eq!(r.acao, "alternar_musica");
}

#[test]
fn o_fio_reancora_quando_envelhece() {
    let mut p = Pulso::novo(11);
    let pedidos = vec!["le o notas.md".to_string()];
    let b = p.bater(1, &pedidos, 3, 12);
    assert!(b.reancorou);
    assert_eq!(b.episodios_novos, 1);
    for _ in 0..IDADE_MAXIMA_FIO {
        p.pensou(" deriva total sem relacao nenhuma");
    }
    assert!(!p.fio().ends_with("notas.md"));
    let b = p.bater(1, &pedidos, 3, 12);
    assert_eq!(b.episodios_novos, 0);
    assert!(b.reancorou, "o fio velho tinha de reancorar");
    assert!(p.fio().contains("notas.md"), "nao reancorou na memoria: {:?}", p.fio());
    assert_eq!(p.fio(), "le o notas.md");
}

#[test]
fn a_ancora_e_os_ultimos_quatro_do_mais_recente() {
    let ps: Vec<String> = ["a", "b", "c", "d", "e"].iter().map(|s| s.to_string()).collect();
    assert_eq!(reancora(&ps), "e d c b");
    assert_eq!(reancora(&[]), "teka");
}

#[test]
fn consolida_por_percepcao_ou_pelo_relogio() {
    let mut p = Pulso::novo(1);
    let nada: Vec<String> = vec![];
    let b = p.bater(0, &nada, 3, 2);
    assert_eq!(b.tick, 1);
    assert!(!b.consolidar);
    let b = p.bater(0, &nada, 3, 2);
    assert!(b.consolidar, "o relogio manda consolidar no tick 2");
    let b = p.bater(3, &nada, 3, 0);
    assert!(b.consolidar, "tres episodios novos bastam");
    assert_eq!(p.ticks(), 3);
}

#[test]
fn a_semente_e_o_fim_do_fio() {
    let fio = "x".repeat(CAUDA_FIO + 10);
    assert_eq!(semente(&fio).len(), CAUDA_FIO);
    assert_eq!(semente("curto"), "curto");
}

#[test]
fn o_relato_do_vigia() {
    assert_eq!(
        relato("retomar_musica", Passo::Age, Some(Ok("tocando".to_string()))).as_deref(),
        Some("retomar_musica: tocando")
    );
    assert_eq!(
        relato("r", Passo::Age, Some(Err("sem ponte".to_string()))).as_deref(),
        Some("r: falhou (sem ponte)")
    );
    assert_eq!(
        relato("r", Passo::Desistiu, None).as_deref(),
        Some("r: desisti, a acao nao resolve")
    );
    assert_eq!(relato("r", Passo::Quieto, None), None);
    assert_eq!(relato("r", Passo::Suspensa, None), None);
}

#[test]
fn a_resposta_da_ponte_diz_se_esta_tocando() {
    assert!(esta_tocando("{\"ok\":true,\"tocando\":true,\"faixa\":\"x\"}"));
    assert!(!esta_tocando("{\"ok\":true,\"tocando\":false}"));
    assert!(!esta_tocando("{\"tocando\": true}"));
    assert!(!esta_tocando(""));
}

#[test]
fn o_pensamento_escapado_nao_quebra_o_json() {
    let e = escapar_pulso("aspas \" barra \\ \n tab \t fim");
    assert_eq!(e, "aspas \\\" barra \\\\   tab   fim");
    assert!(e.contains(r#"\""#) && e.contains(r#"\\"#));
    assert!(!e.chars().any(|c| (c as u32) < 0x20));
    assert_eq!(escapar_pulso("\u{1}ok\u{7f}"), " ok\u{7f}");
}

#[test]
fn o_gerador_do_pulso_e_o_da_semente() {
    let mut p = Pulso::novo(42);
    let mut r = teka::rng::Rng::new(42);
    let a = p.rng().next_u64();
    let b = p.rng().next_u64();
    assert_eq!(a, r.next_u64());
    assert_eq!(b, r.next_u64());
    assert_ne!(a, b);
    assert_eq!(p.ticks(), 0);
}
