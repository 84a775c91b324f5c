use teka::cerebro::{
    bytes_do_agente, bytes_do_modelo, ler_cabecalho_agente, ler_cabecalho_modelo, ler_tensores,
    ErroCerebro, Tensor,
};
use teka::hierarquia::Config;
use teka::safetensors;

fn bits(v: &[f32]) -> Vec<u32> {
    v.iter().map(|x| x.to_bits()).collect()
}

#[test]
fn o_modelo_volta_igual() {
    let cfg = Config::minusculo();
    let ts = vec![
        Tensor::F32(bits(&[1.0, -2.5, 3.25])),
        Tensor::F32(bits(&[])),
        Tensor::F32(bits(&[0.125])),
    ];
    let b = bytes_do_modelo(&cfg, &ts);
    assert_eq!(&b[..8], b"TEKA0001");
    assert_eq!(b.len(), 8 + 9 * 4 + 4 + (4 + 12) + 4 + (4 + 4));
    let c = ler_cabecalho_modelo(&b).unwrap();
    assert_eq!((c.d_loc, c.f_bb, c.n_bb), (4, 7, 1));
    let lidos = ler_tensores(&b, 44, &[3, 0, 1], false).unwrap();
    assert_eq!(lidos, ts);
    match &lidos[0] {
        Tensor::F32(v) => assert_eq!(f32::from_bits(v[1]), -2.5),
        _ => panic!("tipo errado"),
    }
}

#[test]
fn o_agente_volta_igual_em_f32_e_em_int8() {
    let cfg = Config::pequeno();
    let ts = vec![Tensor::F32(bits(&[0.5, 1.5]))];
    let b = bytes_do_agente(&cfg, 22, false, &ts);
    assert_eq!(&b[..8], b"TEKAG001");
    let (c, q) = ler_cabecalho_agente(&b, 22).unwrap();
    assert!(!q);
    assert_eq!(c.d_bb, 192);
    assert_eq!(ler_tensores(&b, 48, &[2], false).unwrap(), ts);

    // 70 valores em int8: duas escalas (blocos de 64).
    let q8 = vec![Tensor::Q8 { escala: bits(&[0.1, 0.2]), q: (0..70u8).collect() }];
    let b = bytes_do_agente(&cfg, 22, true, &q8);
    assert_eq!(&b[..8], b"TEKAQ008");
    let (_, q) = ler_cabecalho_agente(&b, 22).unwrap();
    assert!(q);
    assert_eq!(ler_tensores(&b, 48, &[70], true).unwrap(), q8);
}

#[test]
fn arquivo_de_outra_coisa_e_recusado() {
    let b = b"NAOTEKA!xxxxxxxxxxxxxxxxxxxxxxxxxxxxxxxxxxxxxxxxxxxxxx".to_vec();
    assert_eq!(ler_cabecalho_modelo(&b).unwrap_err(), ErroCerebro::Assinatura);
    assert_eq!(ler_cabecalho_agente(&b, 3).unwrap_err(), ErroCerebro::Assinatura);
    assert_eq!(
        ErroCerebro::Assinatura.mensagem(false),
        "não é um cérebro da Teka (assinatura errada)"
    );
    assert_eq!(
        ErroCerebro::Assinatura.mensagem(true),
        "nao e um agente da Teka (assinatura errada)"
    );
    // Um modelo não é um agente.
    let m = bytes_do_modelo(&Config::minusculo(), &[]);
    assert_eq!(ler_cabecalho_agente(&m, 3).unwrap_err(), ErroCerebro::Assinatura);
}

#[test]
fn arquivo_cortado_e_recusado() {
    let cfg = Config::minusculo();
    let b = bytes_do_modelo(&cfg, &[Tensor::F32(bits(&[1.0, 2.0]))]);
    assert_eq!(ler_cabecalho_modelo(&b[..5]).unwrap_err(), ErroCerebro::Truncado);
    assert_eq!(ler_cabecalho_modelo(&b[..20]).unwrap_err(), ErroCerebro::Truncado);
    assert_eq!(
        ler_tensores(&b[..b.len() - 1], 44, &[2], false).unwrap_err(),
        ErroCerebro::Truncado
    );
    assert_eq!(ErroCerebro::Truncado.mensagem(false), "failed to fill whole buffer");
}

#[test]
fn contagem_e_tamanho_errados_sao_recusados() {
    let cfg = Config::minusculo();
    let b = bytes_do_modelo(&cfg, &[Tensor::F32(bits(&[1.0, 2.0]))]);
    let e = ler_tensores(&b, 44, &[2, 3], false).unwrap_err();
    assert_eq!(e, ErroCerebro::Contagem { no_arquivo: 1, esperado: 2 });
    assert_eq!(e.mensagem(false), "arquivo tem 1 tensores, o modelo espera 2");
    assert_eq!(e.mensagem(true), "arquivo tem 1 tensores, o agente espera 2");
    let e = ler_tensores(&b, 44, &[5], false).unwrap_err();
    assert_eq!(e, ErroCerebro::Tamanho { no_arquivo: 2, esperado: 5 });
    assert_eq!(e.mensagem(false), "tensor com 2 valores, esperado 5");
}

#[test]
fn agente_de_outro_registro_e_recusado() {
    let b = bytes_do_agente(&Config::minusculo(), 21, false, &[]);
    let e = ler_cabecalho_agente(&b, 22).unwrap_err();
    assert_eq!(e, ErroCerebro::Ferramentas { no_arquivo: 21, esperado: 22 });
    assert_eq!(
        e.mensagem(true),
        "agente treinado com 21 ferramentas, o registro atual tem 22"
    );
}

#[test]
fn o_arquivo_volta_igual() {
    let t = vec![
        ("a.w".to_string(), vec![2, 3], bits(&[1.0, 2.0, 3.0, 4.0, 5.0, 6.0])),
        ("b.g".to_string(), vec![2], bits(&[-1.5, 0.25])),
    ];
    let bruto = safetensors::bytes(&t, &[("origem".to_string(), "teste".to_string())]);
    let n = u64::from_le_bytes(bruto[..8].try_into().unwrap()) as usize;
    let cab = std::str::from_utf8(&bruto[8..8 + n]).unwrap();
    assert!(cab.contains("\"a.w\"") && cab.contains("\"shape\":[2,3]"));
    assert!(cab.contains("\"data_offsets\":[24,32]"));
    assert!(cab.contains("__metadata__"));
    assert_eq!((8 + n) % 8, 0, "os dados nao comecam alinhados em 8 bytes");
    let dados = &bruto[8 + n..];
    let mut off = 0usize;
    for (_, _, vs) in &t {
        for &v in vs {
            let lido = u32::from_le_bytes(dados[off..off + 4].try_into().unwrap());
            assert_eq!(lido, v);
            off += 4;
        }
    }
    assert_eq!(off, dados.len(), "sobrou ou faltou dado");
}

#[test]
fn caminho_do_windows_no_metadado_nao_quebra_o_json() {
    let t = vec![("x".to_string(), vec![1], bits(&[0.5]))];
    let bruto = safetensors::bytes(
        &t,
        &[("origem".to_string(), "C:\\Users\\User\\teka.bin".to_string())],
    );
    let n = u64::from_le_bytes(bruto[..8].try_into().unwrap()) as usize;
    let cab = std::str::from_utf8(&bruto[8..8 + n]).unwrap();
    assert!(
        cab.contains(r"C:\\Users\\User\\teka.bin"),
        "a barra nao foi escapada: {cab}"
    );
}

#[test]
fn o_cabecalho_exato() {
    let t = vec![("x".to_string(), vec![1], bits(&[0.5]))];
    let c = safetensors::montar_cabecalho(&t, &[]);
    let esperado = "{\"x\":{\"dtype\":\"F32\",\"shape\":[1],\"data_offsets\":[0,4]},\"__metadata__\":{}}";
    assert!(c.starts_with(esperado));
    assert!(c[esperado.len()..].chars().all(|c| c == ' '));
    assert_eq!((8 + c.len()) % 8, 0);
}
