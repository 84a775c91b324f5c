use teka::oficina::{diferencas, pares_para_comparar, Mudanca};

fn l(v: &[(&str, u64)]) -> Vec<(String, u64)> {
    v.iter().map(|(p, s)| (p.to_string(), *s)).collect()
}

#[test]
fn o_diff_acha_criado_alterado_e_removido() {
    let antes = l(&[("a.txt", 10), ("b.txt", 5), ("sub/c.txt", 7)]);
    let depois = l(&[("a.txt", 12), ("b.txt", 5), ("novo.txt", 3)]);
    assert_eq!(pares_para_comparar(&antes, &depois), vec!["b.txt".to_string()]);
    let ms = diferencas(&antes, &depois, &[]);
    assert_eq!(ms.len(), 3);
    assert!(matches!(&ms[0], Mudanca::Alterado { caminho, antes: 10, depois: 12 } if caminho == "a.txt"));
    assert!(matches!(&ms[1], Mudanca::Criado { caminho, bytes: 3 } if caminho == "novo.txt"));
    assert!(matches!(&ms[2], Mudanca::Removido { caminho, bytes: 7 } if caminho == "sub/c.txt"));
    assert_eq!(ms[0].texto(), "  ~ a.txt  (10 → 12 bytes)");
    assert_eq!(ms[1].texto(), "  + novo.txt  (3 bytes)");
    assert_eq!(ms[2].texto(), "  - sub/c.txt  (7 bytes)");
}

#[test]
fn tamanho_igual_com_conteudo_diferente_e_alterado() {
    let antes = l(&[("a.txt", 4)]);
    let depois = l(&[("a.txt", 4)]);
    assert!(diferencas(&antes, &depois, &[]).is_empty());
    let ms = diferencas(&antes, &depois, &["a.txt".to_string()]);
    assert_eq!(ms.len(), 1);
    assert!(matches!(&ms[0], Mudanca::Alterado { antes: 4, depois: 4, .. }));
}

#[test]
fn copia_intacta_nao_tem_diferenca() {
    let x = l(&[("a", 1), ("b", 2), ("c/d", 3)]);
    assert!(diferencas(&x, &x, &[]).is_empty());
    assert_eq!(pares_para_comparar(&x, &x).len(), 3);
}

#[test]
fn o_diff_sai_em_ordem_de_caminho() {
    let antes = l(&[("z.txt", 1), ("a.txt", 1), ("a\\b", 2)]);
    let depois = l(&[("m.txt", 4), ("a.txt", 2)]);
    let ms = diferencas(&antes, &depois, &[]);
    let caminhos: Vec<&str> = ms.iter().map(|m| m.caminho().as_str()).collect();
    // Nome a nome: `a` vem antes de `a.txt`, então `a\b` antes de `a.txt`.
    assert_eq!(caminhos, vec!["a\\b", "a.txt", "m.txt", "z.txt"]);
    assert!(matches!(&ms[0], Mudanca::Removido { bytes: 2, .. }));
    assert!(matches!(&ms[1], Mudanca::Alterado { antes: 1, depois: 2, .. }));
    assert!(matches!(&ms[2], Mudanca::Criado { bytes: 4, .. }));
    assert!(matches!(&ms[3], Mudanca::Removido { bytes: 1, .. }));
}
