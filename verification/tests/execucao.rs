use teka::diario::Diario;
use teka::execucao::{Decisao, Executor};
use teka::oficina::{Mudanca, Oficina};
use teka::prim::Acao;
use teka::registro::{Chamada, Registro};
use teka::seguranca::{Modo, Politica};

fn chamada(reg: &Registro, nome: &str, args: &[(&str, &str)]) -> Chamada {
    Chamada {
        ferramenta: reg.indice(nome).unwrap(),
        args: args.iter().map(|(a, b)| (a.to_string(), b.to_string())).collect(),
    }
}

fn em_modo_real(raiz: &str) -> Politica {
    Politica { modo: Modo::Real, raiz: Some(raiz.into()), ..Default::default() }
}

#[test]
fn escrever_duas_vezes_so_escreve_uma_no_diario() {
    let reg = Registro::padrao();
    let mut ex = Executor::novo(Diario::novo("d.log"), em_modo_real("C:\\area"));
    let c = chamada(&reg, "escrever_arquivo", &[("caminho", "a.txt"), ("texto", "oi")]);
    let chave = match ex.decidir(&reg, &c, false).unwrap() {
        Decisao::Registrar { chave, falhou_antes, .. } => {
            assert!(falhou_antes.is_none());
            chave
        }
        _ => panic!("a primeira vez registra e executa"),
    };
    ex.registrar_inicio(&chave);
    ex.registrar_fim(&chave, &Ok("escrito".to_string()));
    match ex.decidir(&reg, &c, false).unwrap() {
        Decisao::Pronto(t) => assert_eq!(t, "escrito\n  (ja tinha sido feito; nao repeti)"),
        _ => panic!("a segunda tinha de devolver o recibo"),
    }
    assert_eq!(ex.quantas_no_diario(), 1);
}

#[test]
fn ler_pode_repetir_a_vontade_e_nao_entra_no_diario_decidido() {
    let reg = Registro::padrao();
    let ex = Executor::novo(Diario::novo("d.log"), Politica::default());
    let c = chamada(&reg, "hora", &[]);
    for _ in 0..3 {
        assert!(matches!(ex.decidir(&reg, &c, false).unwrap(), Decisao::Direto(_)));
    }
    assert_eq!(ex.quantas_no_diario(), 0);
}

#[test]
fn incerto_e_falha_anterior() {
    let reg = Registro::padrao();
    let mut ex = Executor::novo(Diario::novo("d.log"), em_modo_real("C:\\area"));
    let c = chamada(&reg, "apagar_arquivo", &[("caminho", "x.txt")]);
    let k = Diario::chave("apagar_arquivo", &c.args);
    ex.registrar_inicio(&k);
    assert!(ex.decidir(&reg, &c, false).unwrap_err().starts_with("'apagar_arquivo' comecou antes"));
    ex.registrar_fim(&k, &Err("nao achei".to_string()));
    match ex.decidir(&reg, &c, false).unwrap() {
        Decisao::Registrar { falhou_antes, .. } => assert_eq!(falhou_antes.as_deref(), Some("nao achei")),
        _ => panic!("falha anterior deixa repetir"),
    }
}

#[test]
fn dentro_da_oficina_a_escrita_vai_para_a_copia_decidida() {
    let reg = Registro::padrao();
    let mut ex = Executor::novo(Diario::novo("d.log"), em_modo_real("C:\\real"));
    let of = Oficina::abrir("C:\\real", "C:\\of", true, false, 3, 100).unwrap();
    assert_eq!(ex.abrir_oficina(of).unwrap(), "C:\\of");
    let c = chamada(&reg, "escrever_arquivo", &[("caminho", "novo.txt"), ("texto", "x")]);
    match ex.decidir(&reg, &c, false).unwrap() {
        Decisao::Direto(pol) => {
            assert_eq!(pol.raiz.as_deref(), Some("C:\\of"));
            match reg.executar(&c, &pol).unwrap() {
                Acao::EscreverArquivo { alvo, .. } => assert_eq!(alvo, "C:\\of\\novo.txt"),
                _ => panic!("modo real na oficina escreve"),
            }
        }
        _ => panic!("dentro da oficina nao passa pelo diario"),
    }
    assert_eq!(ex.quantas_no_diario(), 0);
    assert!(ex.descartar_oficina().is_some());
    assert!(!ex.tem_oficina());
    assert!(matches!(ex.decidir(&reg, &c, false).unwrap(), Decisao::Registrar { .. }));
}

#[test]
fn nao_abre_duas_oficinas_no_executor() {
    let mut ex = Executor::novo(Diario::novo("d.log"), Politica::default());
    ex.abrir_oficina(Oficina::abrir("C:\\r", "C:\\a", true, false, 0, 0).unwrap()).unwrap();
    assert!(ex.abrir_oficina(Oficina::abrir("C:\\r", "C:\\b", true, false, 0, 0).unwrap()).is_err());
}

#[test]
fn precisa_confirmar_espelha_o_decidir() {
    let reg = Registro::padrao();
    let ex = Executor::novo(Diario::novo("d.log"), em_modo_real("C:\\base")).com_confirmacao(true);
    for (i, f) in reg.ferramentas.iter().enumerate() {
        let c = Chamada { ferramenta: i, args: Vec::new() };
        assert_eq!(ex.precisa_confirmar(&reg, &c), f.prim.pede_cerimonia(), "{}", f.nome);
        assert_eq!(
            ex.precisa_confirmar(&reg, &c),
            matches!(ex.decidir(&reg, &c, false), Ok(Decisao::Perguntar)),
            "{}",
            f.nome
        );
    }
    let sem = Executor::novo(Diario::novo("d2.log"), Politica::default()).com_confirmacao(false);
    for i in 0..reg.n() {
        let c = Chamada { ferramenta: i, args: Vec::new() };
        assert!(!sem.precisa_confirmar(&reg, &c));
    }
}

#[test]
fn autorizado_nao_fura_as_outras_guardas_no_plano() {
    let reg = Registro::padrao();
    let ex = Executor::novo(Diario::novo("d.log"), em_modo_real("C:\\base")).com_confirmacao(true);
    let fuga = chamada(&reg, "escrever_arquivo", &[("caminho", "..\\..\\fuga.txt"), ("texto", "x")]);
    match ex.decidir(&reg, &fuga, true).unwrap() {
        Decisao::Registrar { politica, .. } => assert!(reg.executar(&fuga, &politica).is_err(), "escapou da raiz"),
        _ => panic!("autorizada, vai para o diario"),
    }
    let destrutivo = chamada(&reg, "executar_comando", &[("comando", "format c:")]);
    match ex.decidir(&reg, &destrutivo, true).unwrap() {
        Decisao::Registrar { politica, .. } => assert!(reg.executar(&destrutivo, &politica).is_err()),
        _ => panic!(),
    }
    assert!(matches!(ex.decidir(&reg, &destrutivo, false).unwrap(), Decisao::Perguntar));
}

#[test]
fn a_oficina_recusa_destino_que_existe_e_pasta_grande() {
    assert_eq!(Oficina::abrir("C:\\r", "C:\\d", false, false, 0, 0).err().unwrap(), "oficina precisa de uma PASTA existente: C:\\r");
    assert_eq!(Oficina::abrir("C:\\r", "C:\\d", true, true, 0, 0).err().unwrap(), "C:\\d já existe; use uma pasta nova");
    assert_eq!(
        Oficina::abrir("C:\\r", "C:\\d", true, false, 2001, 5 * 1024 * 1024).err().unwrap(),
        "pasta grande demais para oficina (2001 arquivos, 5 MB); aponte uma subpasta"
    );
    let m = Mudanca::Alterado { caminho: "a.txt".into(), antes: 3, depois: 5 };
    assert_eq!(m.texto(), "  ~ a.txt  (3 → 5 bytes)");
    assert_eq!(m.caminho(), "a.txt");
}
