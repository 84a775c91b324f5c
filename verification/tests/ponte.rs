use teka::ponte::{
    aceite, base64, bytes_de_extensao, cabecalho_do_quadro, chave_do_handshake, desmascarar,
    escapar, mensagem, quadro_de_texto, sha1, tamanho_do_quadro, texto_do_quadro, CabecalhoQuadro,
    GUID,
};

#[test]
fn sha1_bate_com_os_vetores_conhecidos() {
    let hex = |b: [u8; 20]| b.iter().map(|x| format!("{x:02x}")).collect::<String>();
    assert_eq!(hex(sha1(b"abc")), "a9993e364706816aba3e25717850c26c9cd0d89d");
    assert_eq!(hex(sha1(b"")), "da39a3ee5e6b4b0d3255bfef95601890afd80709");
    assert_eq!(
        hex(sha1(b"abcdbcdecdefdefgefghfghighijhijkijkljklmklmnlmnomnopnopq")),
        "84983e441c3bd26ebaae4aa1f95129e5e54670f1"
    );
}

#[test]
fn sha1_de_um_milhao_de_a() {
    let hex = |b: [u8; 20]| b.iter().map(|x| format!("{x:02x}")).collect::<String>();
    let milhao_de_a = vec![b'a'; 1_000_000];
    assert_eq!(hex(sha1(&milhao_de_a)), "34aa973cd4c4daa4f61eeb2bdbad27316534016f");
}

#[test]
fn base64_bate_com_os_vetores_conhecidos() {
    assert_eq!(base64(b""), "");
    assert_eq!(base64(b"f"), "Zg==");
    assert_eq!(base64(b"fo"), "Zm8=");
    assert_eq!(base64(b"foo"), "Zm9v");
    assert_eq!(base64(b"foobar"), "Zm9vYmFy");
}

#[test]
fn o_handshake_produz_o_aceite_da_rfc() {
    let chave = "dGhlIHNhbXBsZSBub25jZQ==";
    let aceite = base64(&sha1(format!("{chave}{GUID}").as_bytes()));
    assert_eq!(aceite, "s3pPLMBiTxaQ9kYGzzhZRbK+xOo=");
}

#[test]
fn a_chave_sai_dos_cabecalhos_e_vira_o_aceite() {
    let pedido = "GET /chat HTTP/1.1\r\nHost: 127.0.0.1\r\nsec-WebSocket-KEY:  dGhlIHNhbXBsZSBub25jZQ== \r\n\r\n";
    let k = chave_do_handshake(pedido).unwrap();
    assert_eq!(k, "dGhlIHNhbXBsZSBub25jZQ==");
    assert_eq!(aceite(&k), "s3pPLMBiTxaQ9kYGzzhZRbK+xOo=");
    assert_eq!(chave_do_handshake("GET / HTTP/1.1\r\n\r\n"), None);
}

#[test]
fn escapa_aspas_e_barras_do_json() {
    assert_eq!(escapar(r#"a"b"#), r#"a\"b"#);
    assert_eq!(escapar(r"a\b"), r"a\\b");
    assert_eq!(escapar("a\nb"), "a b");
}

#[test]
fn a_mensagem_leva_o_comando_e_o_numero() {
    assert_eq!(mensagem("next", None, 3), "{\"cmd\":\"next\",\"id\":3}");
    assert_eq!(mensagem("play", Some("a \"b\""), 12), "{\"cmd\":\"play\",\"query\":\"a \\\"b\\\"\",\"id\":12}");
}

#[test]
fn o_quadro_do_servidor_nao_mascara() {
    assert_eq!(quadro_de_texto("oi"), vec![0x81, 2, b'o', b'i']);
    let longo = "x".repeat(300);
    let q = quadro_de_texto(&longo);
    assert_eq!(&q[..4], &[0x81, 126, 1, 44]);
    assert_eq!(q.len(), 304);
}

fn ler(q: &[u8]) -> (CabecalhoQuadro, u64, Vec<u8>) {
    let c = cabecalho_do_quadro(q[0], q[1]);
    let n = bytes_de_extensao(c.tamanho);
    let tam = tamanho_do_quadro(c.tamanho, &q[2..2 + n]);
    let mut ini = 2 + n;
    let mut mask = [0u8; 4];
    if c.mascarado {
        mask.copy_from_slice(&q[ini..ini + 4]);
        ini += 4;
    }
    let mut dados = q[ini..ini + tam as usize].to_vec();
    if c.mascarado {
        desmascarar(&mut dados, mask);
    }
    (c, tam, dados)
}

#[test]
fn o_quadro_escrito_se_le_de_volta() {
    for n in [0usize, 5, 125, 126, 300, 65535, 65536, 70000] {
        let texto = "x".repeat(n);
        let q = quadro_de_texto(&texto);
        let (c, tam, dados) = ler(&q);
        assert_eq!(c, CabecalhoQuadro { opcode: 1, mascarado: false, tamanho: c.tamanho });
        assert_eq!(tam, n as u64, "tamanho {n}");
        assert_eq!(texto_do_quadro(c.opcode, &dados).as_deref(), Some(texto.as_str()));
    }
}

#[test]
fn o_quadro_mascarado_do_cliente_se_le() {
    // "Hello" mascarado, o exemplo da RFC 6455.
    let q = [0x81u8, 0x85, 0x37, 0xfa, 0x21, 0x3d, 0x7f, 0x9f, 0x4d, 0x51, 0x58];
    let (c, tam, dados) = ler(&q);
    assert!(c.mascarado);
    assert_eq!(tam, 5);
    assert_eq!(texto_do_quadro(c.opcode, &dados).as_deref(), Some("Hello"));
}

#[test]
fn fechar_ping_e_pong_nao_sao_texto() {
    assert_eq!(cabecalho_do_quadro(0x88, 0x00).opcode, 8);
    assert_eq!(texto_do_quadro(0x8, b"x"), None);
    assert_eq!(texto_do_quadro(0x9, b""), None);
    assert_eq!(texto_do_quadro(0xA, b""), None);
    assert_eq!(bytes_de_extensao(126), 2);
    assert_eq!(bytes_de_extensao(127), 8);
    assert_eq!(bytes_de_extensao(125), 0);
    assert_eq!(tamanho_do_quadro(127, &[0, 0, 0, 0, 0, 1, 0, 0]), 65536);
}
