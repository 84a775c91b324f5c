use teka::patcher::{
    classe, fronteiras_por_surpresa, Fixo, Patcher, Plano, PorClasse, PorPalavra, SEM_PATCH,
};

fn fronteiras_de<P: Patcher>(p: &P, s: &str) -> Vec<usize> {
    let mut f = Vec::new();
    p.fronteiras(s.as_bytes(), &mut f);
    f
}

fn por_surpresa(texto: &str, h: &[f32], max: usize, min: usize, limiar: f32) -> Vec<usize> {
    let s: Vec<bool> = (0..texto.len())
        .map(|i| h.get(i).copied().unwrap_or(0.0) > limiar)
        .collect();
    let mut f = Vec::new();
    fronteiras_por_surpresa(texto.as_bytes(), &s, max, min, &mut f);
    f
}

#[test]
fn por_palavra_gruda_o_separador_na_palavra() {
    let p = PorPalavra { max: 8 };
    let f = fronteiras_de(&p, "ola mundo 42!");
    // "ola" | " mundo" | " 42!"
    assert_eq!(f, vec![3, 9, 13]);
}

#[test]
fn por_palavra_comprime_mais_que_por_classe() {
    let texto = "a teka pensa byte a byte, e o patcher junta os bytes em pedacos                      maiores pra o backbone rodar bem menos vezes por texto lido.";
    let n = texto.len() as f64;
    let pal = fronteiras_de(&PorPalavra { max: 8 }, texto).len() as f64;
    let cla = fronteiras_de(&PorClasse { max: 8 }, texto).len() as f64;
    assert!(n / pal > 4.0, "por_palavra comprimindo pouco: {:.2}", n / pal);
    assert!(n / pal > n / cla, "por_palavra deveria comprimir mais que por_classe");
}

#[test]
fn quebra_na_mudanca_de_classe() {
    let p = PorClasse { max: 8 };
    let f = fronteiras_de(&p, "ola mundo 42!");
    // "ola" | " " | "mundo" | " " | "42" | "!"
    assert_eq!(f, vec![3, 4, 9, 10, 12, 13]);
}

#[test]
fn respeita_o_teto() {
    let p = PorClasse { max: 4 };
    let f = fronteiras_de(&p, "abcdefghij");
    assert_eq!(f, vec![4, 8, 10]);
}

#[test]
fn acentuado_nao_quebra_no_meio() {
    let p = PorClasse { max: 32 };
    let f = fronteiras_de(&p, "coração");
    assert_eq!(f, vec!["coração".len()], "deveria ser um patch só");
}

fn confere_cobertura<P: Patcher>(p: &P, texto: &str) {
    let f = fronteiras_de(p, texto);
    if texto.is_empty() {
        assert!(f.is_empty());
    } else {
        assert_eq!(*f.last().unwrap(), texto.len(), "{}", p.nome());
        assert!(f.windows(2).all(|w| w[0] < w[1]), "{}", p.nome());
    }
}

#[test]
fn cobre_a_entrada_inteira() {
    for texto in ["", "a", "ola mundo", "  \n\t  ", "12345678901234567890"] {
        confere_cobertura(&PorPalavra { max: 8 }, texto);
        confere_cobertura(&PorClasse { max: 8 }, texto);
        confere_cobertura(&Fixo { p: 6 }, texto);
    }
}

#[test]
fn fixo_corta_a_cada_p() {
    assert_eq!(fronteiras_de(&Fixo { p: 6 }, "12345678901234567890"), vec![6, 12, 18, 20]);
    assert_eq!(fronteiras_de(&Fixo { p: 5 }, "0123456789"), vec![5, 10]);
    assert_eq!(fronteiras_de(&Fixo { p: 100 }, "abc"), vec![3]);
    assert_eq!(fronteiras_de(&Fixo { p: 0 }, ""), Vec::<usize>::new());
}

#[test]
fn os_nomes_e_os_padroes() {
    assert_eq!(PorPalavra::default().max, 8);
    assert_eq!(PorClasse::default().max, 8);
    assert_eq!(PorPalavra::default().nome(), "por_palavra");
    assert_eq!(PorClasse::default().nome(), "por_classe");
    assert_eq!(Fixo { p: 3 }.nome(), "fixo");
    assert_eq!(classe(b' '), 0);
    assert_eq!(classe(b'a'), 1);
    assert_eq!(classe(0xC3), 1);
    assert_eq!(classe(b'7'), 2);
    assert_eq!(classe(b'!'), 3);
}

#[test]
fn plano_marca_contexto_causal() {
    let bytes = b"ab cd";
    let plano = Plano::novo(&PorClasse { max: 8 }, bytes, 5, 1);
    assert_eq!(plano.p_max, 3);
    assert_eq!(plano.ultimo_byte, vec![1, 2, 4]);
    assert_eq!(plano.ctx, vec![SEM_PATCH, 0, 1, 1, 2]);
}

#[test]
fn preenchimento_do_lote_nao_perde_patch() {
    let seq = 6;
    let batch = 2;
    let mut bytes = vec![0u8; seq * batch];
    for (t, c) in b"aaaaaa".iter().enumerate() {
        bytes[t * batch] = *c;
    }
    for (t, c) in b"a b c ".iter().enumerate() {
        bytes[t * batch + 1] = *c;
    }
    let plano = Plano::novo(&PorClasse { max: 8 }, &bytes, seq, batch);
    assert_eq!(plano.n_patches, vec![1, 6]);
    assert_eq!(plano.p_max, 6);
    for p in 1..6 {
        assert_eq!(plano.ultimo_byte[p * batch], SEM_PATCH);
    }
    assert_ne!(plano.ultimo_byte[1], SEM_PATCH);
}

#[test]
fn o_plano_marca_as_palavras_e_o_patch_de_cada_byte() {
    let plano = Plano::novo(&PorPalavra { max: 8 }, b"ola mundo", 9, 1);
    assert_eq!(plano.patch_de_byte, vec![0, 0, 0, 1, 1, 1, 1, 1, 1]);
    assert_eq!(
        plano.abre_palavra,
        vec![true, false, false, false, true, false, false, false, false]
    );
    assert_eq!(
        plano.fecha_palavra,
        vec![false, false, true, false, false, false, false, false, true]
    );
    assert_eq!(plano.comprimentos, vec![9]);
}

#[test]
fn limitar_descarta_o_preenchimento() {
    // Dois pedidos: "oi" e "bom dia", preenchidos com espaço até 7 bytes.
    let seq = 7;
    let batch = 2;
    let a = b"oi     ";
    let b = b"bom dia";
    let mut bytes = vec![0u8; seq * batch];
    for t in 0..seq {
        bytes[t * batch] = a[t];
        bytes[t * batch + 1] = b[t];
    }
    let mut plano = Plano::novo(&PorPalavra { max: 8 }, &bytes, seq, batch);
    assert_eq!(plano.n_patches, vec![2, 2]);
    plano.limitar(&[2, 7]);
    assert_eq!(plano.n_patches, vec![1, 2]);
    assert_eq!(plano.comprimentos, vec![2, 7]);
    // Nenhuma sequência fica sem patch.
    plano.limitar(&[0, 0]);
    assert_eq!(plano.n_patches, vec![1, 1]);
}

#[test]
fn sem_surpresa_reproduz_por_palavra() {
    for texto in [
        "ola mundo 42!",
        "move notas.md para backup.md",
        "a",
        "  espaco  ",
        "coração",
        "12345678901234567890",
    ] {
        let zeros = vec![0.0f32; texto.len()];
        assert_eq!(
            por_surpresa(texto, &zeros, 8, 2, 1.0),
            fronteiras_de(&PorPalavra { max: 8 }, texto),
            "divergiu em {texto:?}"
        );
    }
}

#[test]
fn surpresa_abre_patch() {
    let texto = "backupxy";
    assert_eq!(por_surpresa(texto, &[0.0; 8], 8, 2, 1.0), vec![8]);
    let mut h = vec![0.0f32; 8];
    h[3] = 5.0;
    assert_eq!(por_surpresa(texto, &h, 8, 2, 1.0), vec![4, 8]);
}

#[test]
fn o_piso_impede_estilhaco() {
    assert_eq!(por_surpresa("abcdefgh", &[9.0; 8], 8, 3, 1.0), vec![3, 6, 8]);
}

#[test]
fn entropia_nunca_remove_fronteira_de_palavra() {
    let texto = "move notas.md para backup.md";
    let alta = vec![9.0f32; texto.len()];
    let f = por_surpresa(texto, &alta, 8, 2, 1.0);
    for (i, b) in texto.bytes().enumerate().skip(1) {
        if classe(b) == 0 && classe(texto.as_bytes()[i - 1]) != 0 {
            assert!(f.contains(&i), "perdeu a fronteira de espaco em {i}");
        }
    }
    assert_eq!(*f.last().unwrap(), texto.len());
    assert!(f.windows(2).all(|w| w[0] < w[1]));
}
