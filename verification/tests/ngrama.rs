use teka::ngrama::{
    bytes_da_tabela, casela, contar, contextos_distintos, e_potencia_de_dois, embaralhar,
    ler_cabecalho, tabela_de,
};

#[test]
fn o_espalhamento_e_o_fnv_1a_dobrado() {
    assert_eq!(embaralhar(b"") as u64, 0xcbf2_9ce4_4fd0_bfc1u64 as usize as u64);
    assert_eq!(embaralhar(b"a") as u64, 0xaf63_dc4c_2962_30c0u64 as usize as u64);
    assert_eq!(embaralhar(b"abc") as u64, 0xe71f_a219_e25e_f552u64 as usize as u64);
}

#[test]
fn abc_repetido_tem_tres_contextos() {
    let c = "abc".repeat(10).into_bytes();
    assert_eq!(contextos_distintos(&c, 3), 3);
    assert_eq!(contextos_distintos(b"ab", 3), 0);
    assert_eq!(contextos_distintos(b"", 0), 0);
}

#[test]
fn a_contagem_separa_as_continuacoes() {
    let mut corpus = Vec::new();
    for _ in 0..1000 {
        corpus.extend_from_slice(b"qa");
        corpus.extend_from_slice(b"qb");
    }
    let m = contar(&corpus, 1);
    let q = embaralhar(b"q");
    let mut depois_de_q = m.get(&q).expect("o contexto q").clone();
    depois_de_q.sort();
    assert_eq!(depois_de_q, vec![(b'a', 1000), (b'b', 1000)]);
    let depois_de_a = m.get(&embaralhar(b"a")).expect("o contexto a");
    assert_eq!(depois_de_a, &vec![(b'q', 1000)]);
    // "b" é seguido de "q" em todas as vezes menos a última.
    assert_eq!(m.get(&embaralhar(b"b")).expect("o contexto b"), &vec![(b'q', 999)]);
    assert_eq!(m.len(), contextos_distintos(&corpus, 1));
}

#[test]
fn a_casela_espera_o_contexto_encher() {
    let texto = b"o rato roeu";
    assert_eq!(casela(4, 0xfff, texto, 2), None);
    assert_eq!(casela(4, 0xfff, texto, 3), Some(embaralhar(b"o ra") & 0xfff));
    assert_eq!(casela(4, 0xfff, texto, 10), Some(embaralhar(b"roeu") & 0xfff));
}

#[test]
fn gravar_e_ler_preserva_a_tabela() {
    let tabela: Vec<u32> = vec![0x4100_0000, 0, 0x3f80_0000, 0x4040_0000];
    let b = bytes_da_tabela(4, &tabela);
    assert_eq!(b.len(), 16 + 16);
    assert_eq!(&b[..4], b"TKNG");
    assert_eq!(ler_cabecalho(&b[..16]), Ok((4, 4)));
    assert_eq!(tabela_de(&b[16..]), tabela);
}

#[test]
fn cabecalho_errado_e_recusado() {
    let mut b = bytes_da_tabela(2, &[1, 2, 3]);
    assert_eq!(
        ler_cabecalho(&b[..16]),
        Err("tamanho de tabela 3 nao e potencia de dois".to_string())
    );
    b[0] = b'X';
    assert_eq!(ler_cabecalho(&b[..16]), Err("nao e um arquivo de n-grama da Teka".to_string()));
}

#[test]
fn potencias_de_dois() {
    assert!(e_potencia_de_dois(1));
    assert!(e_potencia_de_dois(4096));
    assert!(e_potencia_de_dois(1 << 63));
    assert!(!e_potencia_de_dois(0));
    assert!(!e_potencia_de_dois(6));
    assert!(!e_potencia_de_dois(u64::MAX));
}

#[test]
fn um_resto_de_menos_de_quatro_bytes_fica_de_fora() {
    assert_eq!(tabela_de(&[1, 0, 0, 0, 9, 9]), vec![1]);
}
