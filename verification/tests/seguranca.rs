use teka::seguranca::{normalizar, Modo, Politica, Recusa};

#[test]
fn denylist_pega_variacoes_de_caixa() {
    let p = Politica::default();
    assert!(p.checar_comando("DEL /S C:\\").is_err());
    assert!(p.checar_comando("Shutdown -r").is_err());
    assert!(p.checar_comando("rm -rf /").is_err());
    assert!(p.checar_comando("dir").is_ok());
    assert!(p.checar_comando("echo ola").is_ok());
}

#[test]
fn escapar_da_raiz_com_dotdot_e_recusado() {
    let p = Politica::real_em("C:\\teka\\area");
    assert!(p.checar_escrita("nota.txt").is_ok());
    assert!(p.checar_escrita("sub/nota.txt").is_ok());
    assert!(p.checar_escrita("..\\..\\Windows\\System32\\x.dll").is_err());
    assert!(p.checar_escrita("C:\\Windows\\x.dll").is_err());
    // O caso que um prefixo ingênuo deixaria passar:
    assert!(p.checar_escrita("C:\\teka\\area\\..\\..\\segredo.txt").is_err());
}

#[test]
fn sem_raiz_nada_e_escrevivel() {
    let p = Politica::default();
    assert!(p.checar_escrita("qualquer.txt").is_err());
}

#[test]
fn sandbox_e_o_padrao() {
    assert_eq!(Politica::default().modo, Modo::Sandbox);
}

const RAIZ: &str = "C:\\mundo";

#[test]
fn caminho_relativo_de_leitura_cai_na_raiz() {
    let p = Politica::real_em(RAIZ);
    assert_eq!(p.resolver_leitura("notas.md"), "C:\\mundo\\notas.md");
    assert_eq!(p.resolver_leitura("docs\\manual.txt"), "C:\\mundo\\docs\\manual.txt");
}

#[test]
fn caminho_absoluto_continua_passando() {
    let p = Politica::real_em(RAIZ);
    let abs = "C:\\Windows\\System32\\drivers";
    assert_eq!(p.resolver_leitura(abs), abs);
}

#[test]
fn sem_raiz_nada_muda() {
    let p = Politica::default();
    assert_eq!(p.resolver_leitura("x.txt"), "x.txt");
    assert_eq!(p.raiz_ou_atual(), ".");
}

#[test]
fn a_escrita_continua_confinada() {
    let p = Politica::real_em(RAIZ);
    assert!(p.checar_escrita("..\\..\\Windows\\x").is_err());
    assert!(p.checar_escrita("ok.txt").is_ok());
}

#[test]
fn a_escrita_aceita_sai_normalizada() {
    let p = Politica::real_em("C:\\teka\\area");
    assert_eq!(p.checar_escrita("sub/./a/../nota.txt").unwrap(), "C:\\teka\\area\\sub\\nota.txt");
    match p.checar_escrita("C:\\teka\\area\\..\\..\\segredo.txt") {
        Err(Recusa::ForaDaRaiz(c)) => assert_eq!(c, "C:\\segredo.txt"),
        outro => panic!("esperava fora da raiz, veio {outro:?}"),
    }
}

#[test]
fn normalizar_resolve_ponto_e_dois_pontos() {
    assert_eq!(normalizar("C:\\a\\.\\b\\..\\c"), "C:\\a\\c");
    assert_eq!(normalizar("a/b/../../.."), "");
    assert_eq!(normalizar("\\x\\..\\y"), "\\y");
    assert_eq!(normalizar("c:x\\y"), "c:x\\y");
}

#[test]
fn o_primeiro_padrao_da_lista_e_o_que_aparece_na_recusa() {
    let p = Politica::default();
    match p.checar_comando("rm -rf / ; shutdown") {
        Err(Recusa::Destrutivo(padrao)) => assert_eq!(padrao, "shutdown"),
        outro => panic!("{outro:?}"),
    }
}

#[test]
fn politicas_prontas() {
    let a = Politica::real_sem_processos("C:\\x");
    assert_eq!(a.modo, Modo::Real);
    assert!(!a.processos);
    let b = Politica::real_em_tela("C:\\x", "teka_tela");
    assert!(b.processos);
    assert_eq!(b.tela.as_deref(), Some("teka_tela"));
}

#[test]
fn normalizar_duas_vezes_e_normalizar_uma() {
    for p in ["C:\\a\\.\\b\\..\\c", "a/b/../../..", "\\x\\..\\y", "c:x\\y", ".\\a\\.\\b", "C:\\..\\..\\x"] {
        let n = normalizar(p);
        assert_eq!(normalizar(&n), n, "{p}");
        assert!(!n.split('\\').any(|c| c == "." || c == ".."), "{p} -> {n}");
    }
    assert_eq!(normalizar("C:\\..\\..\\x"), "C:\\x", "o `..` nunca tira a raiz");
}

#[test]
fn nome_que_parece_unidade_toma_o_lugar_do_que_vinha() {
    // Empurrado num caminho, `a:` tem prefixo e substitui o que havia; depois de
    // uma unidade sozinha não entra separador.
    assert_eq!(normalizar(".\\a:\\x"), "a:x");
    assert_eq!(normalizar("a:x"), "a:x");
    assert_eq!(normalizar("x\\a:"), "a:");
    assert_eq!(normalizar("C:\\proj\\a:b\\c"), "a:b\\c");
    assert_eq!(normalizar("x\\a:..\\.."), "a:");
    // Fora da lei: sobra um `..`, ou outra unidade.
    assert_eq!(normalizar("x\\a:.."), "a:..");
    assert_eq!(normalizar("x\\a:b:c"), "a:b:c");
    assert_eq!(normalizar("a:b:c"), "b:c");
    let p = Politica::real_em("C:\\proj");
    assert!(p.checar_escrita("sub\\D:\\x").is_err());
    assert!(p.checar_escrita("sub\\x").is_ok());
}

#[test]
fn denylist_pega_variacoes_de_caixa_ascii() {
    let p = Politica::default();
    assert!(p.checar_comando("DEL /S C:\\").is_err());
    assert!(p.checar_comando("dir").is_ok());
}

#[test]
fn caminho_de_rede_e_absoluto_e_passa_na_leitura() {
    let p = Politica::real_em("C:\\mundo");
    assert_eq!(p.resolver_leitura("\\\\srv\\pasta\\x.txt"), "\\\\srv\\pasta\\x.txt");
    assert_eq!(p.resolver_leitura("//srv/pasta/x.txt"), "//srv/pasta/x.txt");
    assert_eq!(p.resolver_leitura("\\\\.\\COM1"), "\\\\.\\COM1");
    assert_eq!(p.resolver_leitura("\\\\?\\C:\\x"), "\\\\?\\C:\\x");
    // Sem a pasta, `\\srv` não é prefixo: é só um caminho com raiz, que fica na
    // unidade da raiz.
    assert_eq!(p.resolver_leitura("\\\\srv"), "C:\\\\srv");
}

#[test]
fn caminho_de_rede_nao_escapa_da_raiz() {
    let p = Politica::real_em("C:\\mundo");
    assert!(p.checar_escrita("\\\\srv\\pasta\\x.txt").is_err());
    let q = Politica::real_em("\\\\srv\\pasta");
    assert_eq!(q.checar_escrita("a\\..\\b.txt").unwrap(), "\\\\srv\\pasta\\b.txt");
    assert_eq!(q.checar_escrita("//srv/pasta/c.txt").unwrap(), "//srv/pasta\\c.txt");
    assert!(q.checar_escrita("\\\\srv\\outra\\c.txt").is_err());
    assert!(q.checar_escrita("\\\\srv\\pasta\\..\\..\\c.txt").is_ok());
}

#[test]
fn normalizar_mantem_o_prefixo_de_rede() {
    assert_eq!(normalizar("\\\\srv\\pasta"), "\\\\srv\\pasta\\");
    assert_eq!(normalizar("\\\\srv\\pasta\\a\\..\\..\\b"), "\\\\srv\\pasta\\b");
}
