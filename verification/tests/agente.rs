use teka::agente::{descascar_parenteses, encaixar_na_palavra, recortar};

#[test]
fn conserta_o_escorregao_dentro_da_palavra() {
    let p = "chama o ipconfig no terminal";
    let i = p.find('g').unwrap();
    assert_eq!(recortar(p.as_bytes(), i, i), "ipconfig");

    let p2 = "quero acionar o comando hostname";
    let i2 = p2.find("hostnam").unwrap();
    assert_eq!(recortar(p2.as_bytes(), i2, i2 + 6), "hostname");

    let p3 = "salva a observacao urgente em avisos.txt";
    let i3 = p3.find("rgente").unwrap();
    assert_eq!(recortar(p3.as_bytes(), i3, i3 + 5), "urgente");
}

#[test]
fn a_pontuacao_colada_nao_entra_no_valor() {
    let p = "o texto de notas.md, por favor";
    let i = p.find("notas").unwrap();
    assert_eq!(recortar(p.as_bytes(), i, i + 2), "notas.md");

    let p2 = "anota isso em lista_de_compras.txt: teste";
    let i2 = p2.find("lista").unwrap();
    assert_eq!(recortar(p2.as_bytes(), i2, i2 + 4), "lista_de_compras.txt");
}

#[test]
fn a_letra_de_unidade_sobrevive() {
    let p = "quanto tem livre em C:";
    let i = p.find("C:").unwrap();
    assert_eq!(recortar(p.as_bytes(), i, i + 1), "C:");
    let p2 = "lista C:\\temp por favor";
    let j = p2.find("C:").unwrap();
    assert_eq!(recortar(p2.as_bytes(), j, j + 1), "C:\\temp");
}

#[test]
fn acento_nao_e_partido_ao_meio() {
    let p = "o que diz o arquivo configuração.ini";
    let i = p.find("ão").unwrap();
    assert_eq!(recortar(p.as_bytes(), i, i + 4), "configuração.ini");
}

#[test]
fn parentese_que_envolve_sai_e_o_que_faz_parte_fica() {
    let p = "(1024*8) ta complicado, resolve pra mim";
    assert_eq!(recortar(p.as_bytes(), 1, 6), "1024*8");
    let p2 = "responde esse calculo (12+8)*5";
    let i = p2.find("(12").unwrap();
    assert_eq!(recortar(p2.as_bytes(), i, i + 7), "(12+8)*5");
    assert_eq!(descascar_parenteses("(a+b)*(c"), "(a+b)*(c");
}

#[test]
fn recorte_que_atravessa_palavras_e_preservado() {
    let p = "registra comprar pao no notas.md";
    let i = p.find("comprar").unwrap();
    assert_eq!(recortar(p.as_bytes(), i, i + 10), "comprar pao");
}

#[test]
fn posicoes_fora_do_pedido_vao_para_o_fim() {
    assert_eq!(recortar(b"", 3, 9), "");
    assert_eq!(recortar(b"abc def", 50, 60), "def");
    assert_eq!(recortar(b"abc def", 5, 1), "def");
    assert_eq!(encaixar_na_palavra(b"ab cd ef", 4, 4), (3, 4));
    assert_eq!(descascar_parenteses("((x))"), "x");
    assert_eq!(descascar_parenteses("()"), "()");
}

#[test]
fn dois_pontos_so_sai_depois_de_mais_de_dois_bytes() {
    // "é:" tem três bytes: o dois-pontos sai.
    assert_eq!(teka::agente::aparar_pontuacao("é:"), "é");
    assert_eq!(teka::agente::aparar_pontuacao("C:"), "C:");
    assert_eq!(teka::agente::aparar_pontuacao(",?notas.md,;"), "notas.md");
    assert_eq!(teka::agente::aparar_pontuacao(".gitignore."), ".gitignore");
}
