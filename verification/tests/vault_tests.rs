use podman_compose_mgr::secrets::vault::{key_vault_name, vault_url};

#[test]
fn vault_names_from_urls_and_plain_names() {
    assert_eq!(key_vault_name("https://myvault.vault.azure.net/"), "myvault");
    assert_eq!(key_vault_name("https://a.vault.azure.net//rest"), "a");
    assert_eq!(key_vault_name("myvault"), "myvault");
    assert_eq!(key_vault_name("myvault.vault.azure.net"), "myvault.vault.azure.net");
    assert_eq!(key_vault_name("https://plain.example.com"), "https://plain.example.com");
    assert_eq!(vault_url("myvault"), "https://myvault.vault.azure.net");
}

#[test]
fn the_address_of_a_vault_names_it_again() {
    for name in ["team1", "prod-secrets", "x"] {
        assert_eq!(key_vault_name(&vault_url(name)), name);
    }
}
