use teka::prim::{wide, Acao, Primitiva};
use teka::seguranca::{Modo, Politica};

fn args(v: &[(&str, &str)]) -> Vec<(String, String)> {
    v.iter().map(|(a, b)| (a.to_string(), b.to_string())).collect()
}

#[test]
fn sandbox_descreve_em_vez_de_escrever() {
    let pol = Politica { modo: Modo::Sandbox, raiz: Some("C:\\area".into()), ..Default::default() };
    match Primitiva::EscreverArquivo.executar(&args(&[("caminho", "nota.txt"), ("texto", "olá")]), &pol).unwrap() {
        Acao::Responder(t) => assert_eq!(t, "[sandbox] escreveria 4 bytes em C:\\area\\nota.txt"),
        _ => panic!("em sandbox nao escreve"),
    }
}

#[test]
fn escrita_fora_da_raiz_e_recusada_mesmo_em_modo_real_no_plano() {
    let pol = Politica::real_em("C:\\teka_area");
    let r = Primitiva::EscreverArquivo.executar(&args(&[("caminho", "..\\..\\fuga.txt"), ("texto", "x")]), &pol);
    assert!(r.is_err());
}

#[test]
fn comando_destrutivo_e_recusado_no_plano() {
    let pol = Politica::real_em("C:\\tmp");
    assert!(Primitiva::ExecutarComando.executar(&args(&[("comando", "del /s C:\\")]), &pol).is_err());
    assert!(Primitiva::ExecutarComando.executar(&args(&[("comando", "shutdown -s")]), &pol).is_err());
    assert_eq!(
        Primitiva::ExecutarComando.executar(&args(&[("comando", "  ")]), &pol).err().unwrap(),
        "comando vazio"
    );
    match Primitiva::ExecutarComando.executar(&args(&[("comando", "dir")]), &pol).unwrap() {
        Acao::ExecutarComando(c) => assert_eq!(c, "dir"),
        _ => panic!("modo real executa"),
    }
}

#[test]
fn listar_sem_caminho_usa_a_raiz_e_disco_usa_c() {
    let pol = Politica::real_em("C:\\area");
    match Primitiva::ListarPasta.executar(&[], &pol).unwrap() {
        Acao::ListarPasta(c) => assert_eq!(c, "C:\\area"),
        _ => panic!(),
    }
    match Primitiva::ListarPasta.executar(&[], &Politica::default()).unwrap() {
        Acao::ListarPasta(c) => assert_eq!(c, "."),
        _ => panic!(),
    }
    match Primitiva::Disco.executar(&[], &pol).unwrap() {
        Acao::Disco(c) => assert_eq!(c, "C:\\"),
        _ => panic!(),
    }
}

#[test]
fn wide_termina_em_zero_e_usa_pares_substitutos() {
    assert_eq!(wide("ab"), vec![0x61, 0x62, 0]);
    assert_eq!(wide("é"), vec![0xE9, 0]);
    assert_eq!(wide("😀"), vec![0xD83D, 0xDE00, 0]);
    assert_eq!(wide(""), vec![0]);
}

#[test]
fn a_listagem_poe_pastas_primeiro_e_corta_em_duzentos() {
    let itens = vec![
        (false, "b.txt".to_string(), 3),
        (true, "z".to_string(), 0),
        (false, "a.txt".to_string(), 1),
        (true, "m".to_string(), 0),
        (false, "B.txt".to_string(), 2),
    ];
    let r = teka::prim::ordenar_listagem(itens);
    let nomes: Vec<&str> = r.iter().map(|i| i.1.as_str()).collect();
    assert_eq!(nomes, vec!["m", "z", "B.txt", "a.txt", "b.txt"]);
    let muitos: Vec<(bool, String, u64)> = (0..250).rev().map(|i| (false, format!("{i:03}"), 0)).collect();
    let r = teka::prim::ordenar_listagem(muitos);
    assert_eq!(r.len(), 200);
    assert_eq!(r[0].1, "000");
    assert_eq!(r[199].1, "199");
}
