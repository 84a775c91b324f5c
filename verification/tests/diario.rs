use teka::diario::{Diario, Veredito};

fn args(v: &[(&str, &str)]) -> Vec<(String, String)> {
    v.iter().map(|(a, b)| (a.to_string(), b.to_string())).collect()
}

#[test]
fn a_chave_nao_depende_da_ordem_dos_argumentos_mas_depende_do_valor() {
    let a = Diario::chave("f", &args(&[("x", "1"), ("y", "2")]));
    let b = Diario::chave("f", &args(&[("y", "2"), ("x", "1")]));
    assert_eq!(a, b, "ordem dos argumentos nao pode mudar a identidade");

    let c = Diario::chave("f", &args(&[("x", "1"), ("y", "3")]));
    assert_ne!(a, c, "valor diferente tem de dar chave diferente");
    let d = Diario::chave("g", &args(&[("x", "1"), ("y", "2")]));
    assert_ne!(a, d, "ferramenta diferente tem de dar chave diferente");

    // O separador entre campos importa: sem ele ("ab","c") e ("a","bc") colidem.
    assert_ne!(
        Diario::chave("f", &args(&[("k", "ab"), ("l", "c")])),
        Diario::chave("f", &args(&[("k", "a"), ("l", "bc")]))
    );
}

#[test]
fn a_chave_e_o_fnv_em_hexadecimal() {
    // FNV-1a de 64 bits de "f" seguido do separador 0xff, sem argumentos.
    let mut h: u64 = 0xcbf2_9ce4_8422_2325;
    h ^= b'f' as u64;
    h = h.wrapping_mul(0x0000_0100_0000_01b3);
    h ^= 0xff;
    h = h.wrapping_mul(0x0000_0100_0000_01b3);
    assert_eq!(Diario::chave("f", &[]), format!("{h:016x}"));
    assert_eq!(Diario::chave("f", &[]).len(), 16);
}

#[test]
fn primeira_vez_executa_segunda_vez_repete_o_recibo_em_memoria() {
    let mut d = Diario::novo("diario.log");
    let k = Diario::chave("escrever_arquivo", &args(&[("caminho", "a.txt")]));
    assert_eq!(d.consultar(&k), Veredito::Executar);
    d.iniciar(&k);
    assert_eq!(d.consultar(&k), Veredito::Incerto);
    d.concluir(&k, "escrevi 12 bytes");
    assert_eq!(d.consultar(&k), Veredito::Repetir("escrevi 12 bytes".into()));
    assert_eq!(d.quantas(), 1);
}

#[test]
fn reabrir_o_registro_da_o_mesmo_veredito() {
    let k = Diario::chave("ler_arquivo", &args(&[("caminho", "x")]));
    let recibo = "linha um\nlinha\tdois\\fim";
    let mut texto = String::new();
    texto.push_str(&teka::diario::linha("iniciado", &k, 17, ""));
    texto.push_str(&teka::diario::linha("concluido", &k, 18, recibo));
    let d = Diario::de_registro("d.log", &texto);
    assert_eq!(d.consultar(&k), Veredito::Repetir(recibo.into()));
}

#[test]
fn linha_truncada_nao_vira_concluido_ao_reler() {
    let k = Diario::chave("f", &args(&[("a", "b")]));
    let texto = format!("iniciado\t{k}\t0\t\nconclui");
    let d = Diario::de_registro("d.log", &texto);
    assert_eq!(d.consultar(&k), Veredito::Incerto);
}

#[test]
fn a_falha_relida_permite_repetir() {
    let k = Diario::chave("buscar_web", &args(&[("consulta", "xyz")]));
    let mut texto = String::new();
    texto.push_str(&teka::diario::linha("iniciado", &k, 1, ""));
    texto.push_str(&teka::diario::linha("falhou", &k, 2, "nada encontrado"));
    let d = Diario::de_registro("d.log", &texto);
    assert_eq!(d.consultar(&k), Veredito::FalhouAntes("nada encontrado".into()));
}

#[test]
fn a_linha_do_registro_escapa_o_recibo() {
    assert_eq!(teka::diario::linha("concluido", "k", 42, "a\tb\nc\\"), "concluido\tk\t42\ta\\tb\\nc\\\\\n");
    assert_eq!(teka::diario::escapar("a\tb"), "a\\tb");
    assert_eq!(teka::diario::desescapar("a\\tb\\nc\\\\d\\"), "a\tb\nc\\d\\");
}

#[test]
fn reabrir_depois_de_falhar_e_recomecar_da_o_mesmo_veredito_da_memoria() {
    let k = Diario::chave("buscar_web", &args(&[("consulta", "xyz")]));
    let erro = "sem rede\tagora\\ou\nnunca";
    let mut d = Diario::novo("d.log");
    let mut texto = String::new();
    d.iniciar(&k);
    texto.push_str(&teka::diario::linha("iniciado", &k, 1, ""));
    d.falhar(&k, erro);
    texto.push_str(&teka::diario::linha("falhou", &k, 2, erro));
    assert_eq!(Diario::de_registro("d.log", &texto).consultar(&k), d.consultar(&k));
    assert_eq!(d.consultar(&k), Veredito::FalhouAntes(erro.into()));
    d.iniciar(&k);
    texto.push_str(&teka::diario::linha("iniciado", &k, 3, ""));
    assert_eq!(d.consultar(&k), Veredito::Incerto);
    assert_eq!(Diario::de_registro("d.log", &texto).consultar(&k), Veredito::Incerto);
}
