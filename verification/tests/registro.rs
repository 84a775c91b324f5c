use teka::prim::{Acao, Efeito, Primitiva};
use teka::registro::{dividir_pares, Chamada, Registro, TipoParam};
use teka::seguranca::Politica;

#[test]
fn ida_e_volta_de_chamada() {
    let r = Registro::padrao();
    let c = Chamada {
        ferramenta: r.indice("listar_pasta").unwrap(),
        args: vec![("caminho".into(), "C:\\Users\\User\\Projetos".into())],
    };
    let t = c.texto(&r);
    assert_eq!(t, "{\"acao\":\"listar_pasta\",\"caminho\":\"C:\\Users\\User\\Projetos\"}");
    assert_eq!(Chamada::parse(&t, &r).unwrap(), c);
}

#[test]
fn parse_nao_quebra_valor_com_virgula() {
    let r = Registro::padrao();
    let t = "{\"acao\":\"calcular\",\"expressao\":\"1,5*2\"}";
    let c = Chamada::parse(t, &r).unwrap();
    assert_eq!(c.args[0].1, "1,5*2");
}

#[test]
fn parametro_obrigatorio_faltando_e_erro() {
    let r = Registro::padrao();
    let c = Chamada {
        ferramenta: r.indice("listar_pasta").unwrap(),
        args: vec![],
    };
    assert!(r.executar(&c, &Politica::default()).is_err());
}

#[test]
fn registro_padrao_esta_consistente() {
    let r = Registro::padrao();
    assert_eq!(r.n(), 22);
    assert_eq!(r.ferramentas[0].nome, "perguntar");
    assert!(r.ferramentas[0].params.is_empty());
    let mut nomes = r.nomes();
    nomes.sort();
    let antes = nomes.len();
    nomes.dedup();
    assert_eq!(nomes.len(), antes, "nomes de ferramenta duplicados");
    for f in &r.ferramentas {
        assert!(!f.nome.is_empty() && !f.descricao.is_empty());
        assert!(f.nome.bytes().all(|b| b.is_ascii_lowercase() || b == b'_'));
        let mut viu_opcional = false;
        for p in &f.params {
            if !p.obrigatorio {
                viu_opcional = true;
            } else {
                assert!(!viu_opcional, "{}: obrigatorio depois de opcional", f.nome);
            }
        }
    }
}

#[test]
fn o_manual_cita_cada_ferramenta_e_o_uso() {
    let r = Registro::padrao();
    let m = r.manual();
    for f in &r.ferramentas {
        assert!(m.contains(&f.nome), "manual nao cita {}", f.nome);
    }
    assert!(m.starts_with("ferramenta: perguntar\n  o que faz: diz que nao entendeu e pede para reformular\n  uso: {\"acao\":\"perguntar\"}\n\n"));
    assert!(m.contains("  parametros: nome (texto), raiz (caminho, opcional)\n"));
    assert!(m.contains("  uso: {\"acao\":\"copiar_arquivo\",\"origem\":\"...\",\"destino\":\"...\"}\n"));
}

#[test]
fn erros_de_leitura_da_chamada() {
    let r = Registro::padrao();
    assert_eq!(Chamada::parse("acao", &r).unwrap_err(), "chamada deve estar entre chaves");
    assert_eq!(Chamada::parse("{\"x\"}", &r).unwrap_err(), "par sem dois-pontos");
    assert_eq!(Chamada::parse("{\"x\":1}", &r).unwrap_err(), "valor de x nao esta entre aspas");
    assert_eq!(Chamada::parse("{\"acao\":\"voar\"}", &r).unwrap_err(), "ferramenta desconhecida: voar");
    assert_eq!(Chamada::parse("{\"a\":\"b\"}", &r).unwrap_err(), "chamada sem campo acao");
    assert_eq!(Chamada::parse("  {}  ", &r).unwrap_err(), "chamada sem campo acao");
}

#[test]
fn dividir_pares_respeita_as_aspas() {
    assert_eq!(dividir_pares("\"a\":\"1,2\",\"b\":\"3\""), vec!["\"a\":\"1,2\"", "\"b\":\"3\""]);
    assert_eq!(dividir_pares("a,"), vec!["a"]);
    assert_eq!(dividir_pares(",a"), vec!["", "a"]);
    assert!(dividir_pares("").is_empty());
}

#[test]
fn executar_recusa_indice_fora_e_planeja_em_sandbox() {
    let r = Registro::padrao();
    let pol = Politica::default();
    let fora = Chamada { ferramenta: 99, args: vec![] };
    assert_eq!(r.executar(&fora, &pol).unwrap_err(), "ferramenta 99 não existe");
    let falta = Chamada { ferramenta: r.indice("escrever_arquivo").unwrap(), args: vec![("caminho".into(), "a".into())] };
    assert_eq!(r.executar(&falta, &pol).unwrap_err(), "escrever_arquivo: falta o parâmetro obrigatório texto");
    let perguntar = Chamada { ferramenta: 0, args: vec![] };
    match r.executar(&perguntar, &pol).unwrap() {
        Acao::Responder(t) => assert_eq!(t, "nao entendi o que voce quer que eu faca. pode dizer de outro jeito?"),
        _ => panic!("perguntar tem de responder"),
    }
}

#[test]
fn tipos_e_efeitos() {
    assert_eq!(TipoParam::Caminho.rotulo(), "caminho");
    assert_eq!(TipoParam::Numero.rotulo(), "numero");
    assert_eq!(Primitiva::EscreverArquivo.efeito(), Efeito::Local);
    assert_eq!(Primitiva::BuscarWeb.efeito(), Efeito::ParaFora);
    assert_eq!(Primitiva::Atalho.efeito(), Efeito::Reversivel);
    assert_eq!(Primitiva::Hora.efeito(), Efeito::Nenhum);
    assert!(Primitiva::Atalho.efeito_colateral());
    assert!(!Primitiva::Atalho.pede_cerimonia());
    assert!(Primitiva::BuscarWeb.pede_cerimonia());
}
