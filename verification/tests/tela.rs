use teka::tela::{citar, validar_nome_de_tela};
use teka::uia::{proibido, rotulo};

#[test]
fn a_citacao_so_cita_quem_precisa() {
    assert_eq!(citar("/C").unwrap(), "/C");
    assert_eq!(citar("notepad").unwrap(), "notepad");
    assert_eq!(citar("meu arquivo.txt").unwrap(), "\"meu arquivo.txt\"");
    assert_eq!(citar("").unwrap(), "\"\"");
}

#[test]
fn argumento_com_injecao_e_recusado_na_citacao() {
    assert_eq!(citar("a & b").unwrap_err(), "caractere '&' nao pode entrar num argumento");
    assert_eq!(citar("a\nb").unwrap_err(), "caractere '\\n' nao pode entrar num argumento");
    assert_eq!(citar("C:\\pasta\\").unwrap_err(), "argumento nao pode terminar em contrabarra");
}

#[test]
fn nome_com_barra_e_recusado() {
    assert!(validar_nome_de_tela("a\\b").is_err());
    assert!(validar_nome_de_tela("").is_err());
}

#[test]
fn a_recusa_do_nome_diz_qual_era() {
    assert_eq!(validar_nome_de_tela("a\\b").unwrap_err(), "nome de tela invalido: \"a\\\\b\"");
    assert!(validar_nome_de_tela("teka_1").is_ok());
}

#[test]
fn rotulos_e_atos_que_ela_nao_faz_sozinha() {
    assert_eq!(rotulo(0), "desligado");
    assert_eq!(rotulo(1), "ligado");
    assert_eq!(rotulo(7), "indefinido");
    assert!(proibido("Silenciar voz NO SERVIDOR"));
    assert!(proibido("Ações de servidor"));
    assert!(!proibido("Silenciar"));
}
